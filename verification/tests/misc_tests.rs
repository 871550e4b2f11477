use rsocks::helpers::{GenericError, IntoError, Res};

pub fn add_two(a: i32) -> i32 {
    a + 2
}

#[test]
fn it_works() {
    assert_eq!(4, add_two(2));
}

#[test]
fn messages_become_errors() {
    let r: Res<u8> = "something went wrong".into_error();
    match r {
        Err(e) => assert_eq!(e.message().as_str(), "something went wrong"),
        Ok(_) => panic!("expected an error"),
    }
    let e = GenericError::from_text("boom");
    assert_eq!(e.message().as_str(), "boom");
}
