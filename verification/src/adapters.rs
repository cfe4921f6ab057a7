//! Errors and spans of `syn` as the aggregated value and the place.

use vstd::prelude::*;
use crate::diagnostic::{
    render_spec, with_context, with_context_spec, Combine, DiagnosticBuffer, Liaise,
};
use crate::loc::DiagnosticLoc;

verus! {

/// `syn::Error`, carried as it is: contracts speak of its messages alone.
#[verifier::external_type_specification]
#[verifier::external_body]
pub struct ExSynError(syn::Error);

/// `proc_macro2::Span`, carried as it is: nothing is known of what it holds.
#[verifier::external_type_specification]
#[verifier::external_body]
pub struct ExSpan(proc_macro2::Span);

/// `proc_macro2::TokenStream`, carried as it is: nothing is known of what it
/// holds.
#[verifier::external_type_specification]
#[verifier::external_body]
pub struct ExTokenStream(proc_macro2::TokenStream);

/// The messages that a `syn::Error` holds, in their order. Such an error is a
/// list of messages, each with the span it points at.
pub uninterp spec fn error_messages(e: syn::Error) -> Seq<Seq<char>>;

/// `syn::Error::combine`: the messages of `another` are added behind those
/// that the error holds already, which stay as they were.
#[verifier::external_body]
fn error_combine(e: &mut syn::Error, another: syn::Error)
    ensures
        error_messages(*final(e)) == error_messages(*old(e)) + error_messages(another),
{
    e.combine(another)
}

/// `syn::Error::new`: an error of one message, `message`, that points at
/// `span`.
#[verifier::external_body]
fn error_new(span: proc_macro2::Span, message: String) -> (e: syn::Error)
    ensures
        error_messages(e) == seq![message@],
{
    syn::Error::new(span, message)
}

/// `syn::Error::new_spanned`: an error of one message, `message`, that points
/// at the stretch from the first to the last of `tokens`.
#[verifier::external_body]
fn error_new_spanned(tokens: proc_macro2::TokenStream, message: String) -> (e: syn::Error)
    ensures
        error_messages(e) == seq![message@],
{
    syn::Error::new_spanned(tokens, message)
}

/// The `Debug` text of a `proc_macro2::Span`. What it holds is up to the
/// compiler that made the span, so nothing is said of it.
#[verifier::external_body]
fn span_debug(span: &proc_macro2::Span) -> String {
    format!("{:?}", span)
}

impl DiagnosticLoc for proc_macro2::Span {
    fn source_display(&self) -> String {
        span_debug(self)
    }
}

impl Combine for syn::Error {
    open spec fn parts(&self) -> Seq<Seq<char>> {
        error_messages(*self)
    }

    fn combine(&mut self, other: Self) {
        error_combine(self, other);
    }
}

/// The buffer for procedural macros: it folds `syn` errors.
pub type SynBuffer = DiagnosticBuffer<syn::Error>;

/// Recording a code straight into a buffer of `syn` errors.
pub trait SynBufferExt {
    /// The messages recorded so far.
    spec fn recorded(&self) -> Seq<Seq<char>>;

    /// Records `code` at `span`.
    fn push_at<L: Liaise>(&mut self, span: proc_macro2::Span, code: L)
        ensures
            final(self).recorded() == old(self).recorded().push(render_spec(code)),
    ;

    /// Records `code` at `span`, with the note `ctx`.
    fn push_at_ctx<L: Liaise>(&mut self, span: proc_macro2::Span, code: L, ctx: &str)
        ensures
            final(self).recorded() == old(self).recorded().push(
                with_context_spec(render_spec(code), ctx@),
            ),
    ;

    /// Records `code` at the place of `tokens`.
    fn push_spanned<L: Liaise>(&mut self, tokens: proc_macro2::TokenStream, code: L)
        ensures
            final(self).recorded() == old(self).recorded().push(render_spec(code)),
    ;
}

impl SynBufferExt for SynBuffer {
    open spec fn recorded(&self) -> Seq<Seq<char>> {
        self.held_parts()
    }

    #[inline]
    fn push_at<L: Liaise>(&mut self, span: proc_macro2::Span, code: L) {
        self.push(err_at(span, code));
        assert(self.recorded() =~= old(self).recorded().push(render_spec(code)));
    }

    #[inline]
    fn push_at_ctx<L: Liaise>(&mut self, span: proc_macro2::Span, code: L, ctx: &str) {
        self.push(err_at_ctx(span, code, ctx));
        assert(self.recorded() =~= old(self).recorded().push(
            with_context_spec(render_spec(code), ctx@),
        ));
    }

    #[inline]
    fn push_spanned<L: Liaise>(&mut self, tokens: proc_macro2::TokenStream, code: L) {
        self.push(err_spanned(tokens, code));
        assert(self.recorded() =~= old(self).recorded().push(render_spec(code)));
    }
}

/// An error at `span` whose one message is the rendered `code`.
pub fn err_at<L: Liaise>(span: proc_macro2::Span, code: L) -> (e: syn::Error)
    ensures
        error_messages(e) == seq![render_spec(code)],
{
    error_new(span, code.render())
}

/// An error at `span` whose one message is the rendered `code`, `: ` and
/// `ctx`.
pub fn err_at_ctx<L: Liaise>(span: proc_macro2::Span, code: L, ctx: &str) -> (e: syn::Error)
    ensures
        error_messages(e) == seq![with_context_spec(render_spec(code), ctx@)],
{
    error_new(span, with_context(code.render(), ctx))
}

/// An error at the place of `tokens` whose one message is the rendered `code`.
pub fn err_spanned<L: Liaise>(tokens: proc_macro2::TokenStream, code: L) -> (e: syn::Error)
    ensures
        error_messages(e) == seq![render_spec(code)],
{
    error_new_spanned(tokens, code.render())
}

} // verus!
