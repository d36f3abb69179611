use ruscom::driver::{output_name, random_string, temp_file_name, temp_name};
use ruscom::{compile, CompileError};

fn is_letter_or_digit(c: char) -> bool {
    c.is_ascii_alphanumeric()
}

fn all_differ(text: &str) -> bool {
    let chars: Vec<char> = text.chars().collect();
    (0..chars.len()).all(|i| (0..i).all(|j| chars[i] != chars[j]))
}

#[test]
fn random_string_has_the_length_asked_for() {
    for len in 0..20 {
        let name = random_string(len);
        assert_eq!(name.len(), len);
        assert!(name.chars().all(is_letter_or_digit));
        assert!(all_differ(&name));
    }
}

#[test]
fn random_string_is_no_longer_than_the_alphabet() {
    assert_eq!(random_string(62).len(), 62);
    let name = random_string(1000);
    assert_eq!(name.len(), 62);
    assert!(name.chars().all(is_letter_or_digit));
    assert!(all_differ(&name));
}

#[test]
fn temp_file_names() {
    assert_eq!(temp_name("AbCd0123"), "tmpAbCd0123.s");
    assert_eq!(temp_name(""), "tmp.s");
    let name = temp_file_name();
    assert_eq!(name.len(), 13);
    assert!(name.starts_with("tmp"));
    assert!(name.ends_with(".s"));
    assert!(name[3..11].chars().all(is_letter_or_digit));
}

#[test]
fn output_names() {
    assert_eq!(output_name(Some("out".to_string()), "prog", false), "out");
    assert_eq!(output_name(Some("out".to_string()), "prog", true), "out");
    assert_eq!(output_name(None, "prog", false), "prog");
    assert_eq!(output_name(None, "prog", true), "prog.s");
}

#[test]
fn compile_reports_the_phase_that_failed() {
    match compile("fn main() { return 1 $ 2; }") {
        Err(CompileError::Token(e)) => assert_eq!(e.pos, 21),
        other => panic!("{:?}", other),
    }
    match compile("fn main() { return 1 }") {
        Err(CompileError::Parse(e)) => assert_eq!(e.pos, 21),
        other => panic!("{:?}", other),
    }
    match compile("fn main() { 1 = 2; }") {
        Err(CompileError::Asm(e)) => assert_eq!(e.to_string(), "Lvalue is not assignable!"),
        other => panic!("{:?}", other),
    }
    assert!(compile("fn main() { return 1; }").is_ok());
    assert_eq!(
        compile("fn main() { return 1 $ 2; }").unwrap_err().to_string(),
        "                     ^ Cannot tokenize!"
    );
    assert_eq!(
        compile("fn main() { return x; }").unwrap_err().to_string(),
        "                   ^ Unknown variable!"
    );
    assert_eq!(
        compile("fn main() { let a: i32; *a = 1; }").unwrap_err().to_string(),
        "Dereference target in not pointer type!"
    );
}
