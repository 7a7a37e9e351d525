use simdjson::json_parser::build_parsed_json;

#[test]
fn build() {
    let buf = r#"{"a": "b"}"#;
    let _pj = build_parsed_json(buf.as_bytes());
}

#[allow(unused_mut, unused_variables)]
#[test]
fn realloc() {
    let mut s = vec![1, 2, 3];
    let mut s1 = vec![2, 3];
    println!("{}", s[1]);
    println!("{:?}", s.as_ptr());
    println!("{:x}", s.as_ptr() as usize);
}

#[derive(Debug)]
struct A;

impl Drop for A {
    fn drop(&mut self) {
        println!("drop");
    }
}

#[allow(unused_assignments)]
#[test]
fn lib_it_works() {
    let mut a = vec![A, A];
    println!("{:?}", a);
    a = Vec::with_capacity(0);
    println!("{:?}", a);
}

struct B {
    b: u32,
}

impl B {
    pub fn new() -> B {
        B { b: 0 }
    }

    pub fn use1(&mut self) -> u32 {
        self.b += 1;
        self.b
    }

    pub fn use2(&mut self) -> u32 {
        self.b += 2;
        self.b
    }
}

#[test]
fn fantastic() {
    let mut state: Vec<fn(&mut B) -> u32> = Vec::new();
    state.push(B::use1);
    state.push(B::use2);

    let mut b = B::new();
    println!("{}", state[0](&mut b));
    println!("{}", state[1](&mut b));
}

#[test]
fn parsed_json_iterator_it_works() {}
