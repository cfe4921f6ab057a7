use liaise::diagnostic::{
    validate_family, validate_uniqueness, with_context, DiagBuffer, DiagnosticBuffer,
};
use liaise::loc::{DiagnosticLoc, LineLoc};
use liaise::text::{push_decimal, push_padded4};
use liaise::{Combine, ErrorRegistry, Liaise};

#[derive(Clone, Copy)]
struct Wide(u16);

impl ErrorRegistry for Wide {
    fn registry_prefix() -> &'static str {
        "W"
    }

    fn all_codes() -> Vec<u16> {
        vec![7, 42, 123, 1234, 12345, 65535]
    }
}

impl Liaise for Wide {
    fn code_id(self) -> u16 {
        self.0
    }

    fn message(self) -> String {
        "wide".to_string()
    }
}

#[derive(Clone, Copy)]
struct Clash;

impl ErrorRegistry for Clash {
    fn registry_prefix() -> &'static str {
        "CL"
    }

    fn all_codes() -> Vec<u16> {
        vec![1, 1]
    }
}

struct Pair(String, String);

impl Combine for Pair {
    fn combine(&mut self, other: Self) {
        self.0.push_str(&other.0);
        self.1 = format!("{}{}", other.1, self.1);
    }
}

#[test]
fn family_gate() {
    assert!(validate_family::<Wide>());
    assert!(validate_family::<liaise::AbutCode>());
    assert!(!validate_family::<Clash>());
}

#[test]
fn folding_follows_the_host_rule() {
    let mut buffer = DiagBuffer::<LineLoc, Wide>::new();
    buffer.push(LineLoc { file: "a", line: 1 }, Wide(1));
    buffer.push(LineLoc { file: "b", line: 2 }, Wide(2));
    buffer.push(LineLoc { file: "c", line: 3 }, Wide(3));
    let out = buffer
        .finish(|msg: String, loc: LineLoc| Pair(format!("<{}>", msg), loc.source_display()))
        .err()
        .unwrap();
    assert_eq!(out.0, "<[W0001] wide><[W0002] wide><[W0003] wide>");
    assert_eq!(out.1, "c:3b:2a:1");
}

#[test]
fn uniqueness_rejects_a_collision() {
    assert!(!validate_uniqueness(&[1, 1]));
    assert!(!validate_uniqueness(&[1, 2, 1]));
    assert!(!validate_uniqueness(&[3, 2, 2]));
    assert!(!validate_uniqueness(&[0, 9, 8, 7, 9]));
}

#[test]
fn uniqueness_accepts_distinct_ids() {
    assert!(validate_uniqueness(&[1, 2, 3]));
    assert!(validate_uniqueness(&[]));
    assert!(validate_uniqueness(&[5]));
    assert!(validate_uniqueness(&[65535, 0]));
    assert!(validate_uniqueness(&Wide::all_codes()));
}

#[test]
fn ids_are_padded_to_four_digits() {
    assert_eq!(Wide(0).render(), "[W0000] wide");
    assert_eq!(Wide(7).render(), "[W0007] wide");
    assert_eq!(Wide(42).render(), "[W0042] wide");
    assert_eq!(Wide(123).render(), "[W0123] wide");
    assert_eq!(Wide(999).render(), "[W0999] wide");
    assert_eq!(Wide(1000).render(), "[W1000] wide");
    assert_eq!(Wide(1234).render(), "[W1234] wide");
}

#[test]
fn large_ids_widen_the_field() {
    assert_eq!(Wide(10000).render(), "[W10000] wide");
    assert_eq!(Wide(12345).render(), "[W12345] wide");
    assert_eq!(Wide(65535).render(), "[W65535] wide");
}

#[test]
fn default_prefix_is_the_registry_prefix() {
    assert_eq!(Wide::prefix(), "W");
    assert_eq!(Wide::prefix(), Wide::registry_prefix());
}

#[test]
fn decimal_digits() {
    let mut s = String::from("n=");
    push_decimal(&mut s, 0);
    s.push(',');
    push_decimal(&mut s, 10);
    s.push(',');
    push_decimal(&mut s, 9876543210);
    s.push(',');
    push_decimal(&mut s, u64::MAX);
    assert_eq!(s, "n=0,10,9876543210,18446744073709551615");
}

#[test]
fn padded_digits() {
    let mut s = String::new();
    push_padded4(&mut s, 5);
    s.push(' ');
    push_padded4(&mut s, 99);
    s.push(' ');
    push_padded4(&mut s, 100);
    s.push(' ');
    push_padded4(&mut s, 123456);
    assert_eq!(s, "0005 0099 0100 123456");
}

#[test]
fn context_follows_a_colon() {
    assert_eq!(with_context("[W0001] wide".to_string(), "why"), "[W0001] wide: why");
    assert_eq!(with_context(String::new(), ""), ": ");
}

#[test]
fn line_loc_display() {
    assert_eq!(LineLoc { file: "main.rs", line: 42 }.source_display(), "main.rs:42");
    assert_eq!(LineLoc { file: "", line: 0 }.source_display(), ":0");
    assert_eq!(
        LineLoc { file: "src/lib.rs", line: u32::MAX }.source_display(),
        "src/lib.rs:4294967295"
    );
    let loc = LineLoc { file: "a", line: 1 };
    assert_eq!(loc.clone().source_display(), loc.source_display());
}

#[test]
fn text_combines_by_line_break() {
    let mut a = "first".to_string();
    a.combine("second".to_string());
    assert_eq!(a, "first\nsecond");
    a.combine(String::new());
    assert_eq!(a, "first\nsecond\n");
}

#[test]
fn text_combine_is_associative_in_effect() {
    let mut left = "a".to_string();
    left.combine("b".to_string());
    left.combine("c".to_string());
    let mut tail = "b".to_string();
    tail.combine("c".to_string());
    let mut right = "a".to_string();
    right.combine(tail);
    assert_eq!(left, right);
    assert_eq!(left, "a\nb\nc");
}

#[test]
fn value_buffer_empty_is_success() {
    let buffer: DiagnosticBuffer<String> = DiagnosticBuffer::new();
    assert_eq!(buffer.finish(), Ok(()));
}

#[test]
fn value_buffer_keeps_the_first_and_folds_the_rest() {
    let mut buffer: DiagnosticBuffer<String> = DiagnosticBuffer::new();
    buffer.push("one".to_string());
    let mut single: DiagnosticBuffer<String> = DiagnosticBuffer::new();
    single.push("one".to_string());
    assert_eq!(single.finish(), Err("one".to_string()));
    buffer.push("two".to_string());
    buffer.push("two".to_string());
    assert_eq!(buffer.finish(), Err("one\ntwo\ntwo".to_string()));
}
