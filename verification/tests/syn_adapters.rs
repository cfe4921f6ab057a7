use liaise::adapters::{err_at, err_at_ctx, err_spanned, SynBuffer, SynBufferExt};
use liaise::codes::AbutCode;
use liaise::diagnostic::DiagBuffer;
use liaise::loc::DiagnosticLoc;
use liaise::Combine;
use proc_macro2::{Span, TokenStream};

fn messages(e: syn::Error) -> Vec<String> {
    e.into_iter().map(|m| m.to_string()).collect()
}

#[test]
fn error_at_a_span_holds_the_rendered_code() {
    let e = err_at(Span::call_site(), AbutCode::Io);
    assert_eq!(messages(e), vec!["[ABUT0001] I/O failure".to_string()]);
}

#[test]
fn error_with_context_holds_both() {
    let e = err_at_ctx(Span::call_site(), AbutCode::BufferTooSmall { needed: 3 }, "header");
    assert_eq!(
        messages(e),
        vec!["[ABUT0002] Buffer too small (need 3 bytes): header".to_string()]
    );
}

#[test]
fn error_spanned_holds_the_rendered_code() {
    let tokens: TokenStream = "a + b".parse().unwrap();
    let e = err_spanned(tokens, AbutCode::Io);
    assert_eq!(messages(e), vec!["[ABUT0001] I/O failure".to_string()]);
    let e = err_spanned(TokenStream::new(), AbutCode::Io);
    assert_eq!(e.to_string(), "[ABUT0001] I/O failure");
}

#[test]
fn syn_errors_combine_in_order() {
    let mut e = err_at(Span::call_site(), AbutCode::Io);
    Combine::combine(&mut e, err_at_ctx(Span::call_site(), AbutCode::Io, "second"));
    Combine::combine(&mut e, err_at(Span::call_site(), AbutCode::BufferTooSmall { needed: 1 }));
    assert_eq!(
        messages(e),
        vec![
            "[ABUT0001] I/O failure".to_string(),
            "[ABUT0001] I/O failure: second".to_string(),
            "[ABUT0002] Buffer too small (need 1 bytes)".to_string(),
        ]
    );
}

#[test]
fn syn_buffer_records_in_order() {
    let mut buffer = SynBuffer::new();
    buffer.push_at(Span::call_site(), AbutCode::Io);
    buffer.push_at_ctx(Span::call_site(), AbutCode::Io, "ctx");
    buffer.push_spanned(TokenStream::new(), AbutCode::BufferTooSmall { needed: 16 });
    let e = buffer.finish().unwrap_err();
    assert_eq!(
        messages(e),
        vec![
            "[ABUT0001] I/O failure".to_string(),
            "[ABUT0001] I/O failure: ctx".to_string(),
            "[ABUT0002] Buffer too small (need 16 bytes)".to_string(),
        ]
    );
}

#[test]
fn syn_buffer_empty_is_success() {
    assert!(SynBuffer::new().finish().is_ok());
}

#[test]
fn spans_serve_as_places() {
    let mut buffer = DiagBuffer::<Span, AbutCode>::new();
    buffer.push(Span::call_site(), AbutCode::Io);
    buffer.push_ctx(Span::call_site(), AbutCode::Io, "late");
    let e = buffer.finish(|msg: String, span: Span| syn::Error::new(span, msg)).unwrap_err();
    assert_eq!(
        messages(e),
        vec!["[ABUT0001] I/O failure".to_string(), "[ABUT0001] I/O failure: late".to_string()]
    );
    assert_eq!(Span::call_site().source_display(), format!("{:?}", Span::call_site()));
}
