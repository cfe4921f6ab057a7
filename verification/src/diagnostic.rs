//! Code families, their rendering, and the buffers that collect diagnostics.

use vstd::prelude::*;
use vstd::string::*;
use crate::loc::DiagnosticLoc;
use crate::text::{push_padded4, zero_padded};

verus! {

/// The identity of a family of error codes: a prefix and the full list of its
/// numeric ids.
///
/// No id may occur twice in a family: `all_codes` promises it, so a family
/// with a collision does not verify.
pub trait ErrorRegistry: Copy + 'static {
    /// The prefix that every code of the family is shown with; empty unless
    /// the family says otherwise.
    open spec fn prefix_spec() -> Seq<char> {
        Seq::empty()
    }

    /// All ids of the family, in the order of their declaration; none unless
    /// the family says otherwise.
    open spec fn codes_spec() -> Seq<u16> {
        Seq::empty()
    }

    fn registry_prefix() -> (p: &'static str)
        ensures
            p@ == Self::prefix_spec(),
    ;

    fn all_codes() -> (codes: Vec<u16>)
        ensures
            codes@ == Self::codes_spec(),
            codes@.no_duplicates(),
    ;
}

/// The envelope of a rendered code: `[<prefix><id>] <message>`, the id in
/// decimal and zero-padded to four digits.
pub open spec fn rendered(prefix: Seq<char>, id: u16, message: Seq<char>) -> Seq<char> {
    seq!['['] + prefix + zero_padded(id as nat, 4) + seq![']', ' '] + message
}

/// How one case of a family presents itself.
pub trait Liaise: ErrorRegistry {
    /// The id of this case; 0 unless the family says otherwise.
    open spec fn code_spec(self) -> u16 {
        0
    }

    /// The message of this case, its fields already filled in; empty unless
    /// the family says otherwise.
    open spec fn message_spec(self) -> Seq<char> {
        Seq::empty()
    }

    fn prefix() -> (p: &'static str)
        ensures
            p@ == Self::prefix_spec(),
    {
        Self::registry_prefix()
    }

    /// The id of a case is one of the family's ids.
    fn code_id(self) -> (id: u16)
        ensures
            id == self.code_spec(),
            Self::codes_spec().contains(id),
    ;

    fn message(self) -> (m: String)
        ensures
            m@ == self.message_spec(),
    ;

    fn render(self) -> (s: String)
        ensures
            s@ == rendered(Self::prefix_spec(), self.code_spec(), self.message_spec()),
    {
        let mut s = String::new();
        s.push('[');
        s.append(Self::prefix());
        push_padded4(&mut s, self.code_id() as u64);
        s.push(']');
        s.push(' ');
        let m = self.message();
        s.append(m.as_str());
        assert(s@ =~= rendered(Self::prefix_spec(), self.code_spec(), self.message_spec()));
        s
    }
}

/// The text that `render` gives for `code`.
pub open spec fn render_spec<R: Liaise>(code: R) -> Seq<char> {
    rendered(R::prefix_spec(), code.code_spec(), code.message_spec())
}

/// A rendered code followed by `: ` and a free-text note.
pub open spec fn with_context_spec(shown: Seq<char>, ctx: Seq<char>) -> Seq<char> {
    shown + seq![':', ' '] + ctx
}

/// Appends `: ` and `ctx` to a rendered code.
pub fn with_context(shown: String, ctx: &str) -> (s: String)
    ensures
        s@ == with_context_spec(shown@, ctx@),
{
    let mut s = shown;
    s.push(':');
    s.push(' ');
    s.append(ctx);
    assert(s@ =~= with_context_spec(shown@, ctx@));
    s
}

/// Tells whether no id occurs twice in `ids`.
///
/// Every pair is compared; families are small and the test runs once for each.
pub fn validate_uniqueness(ids: &[u16]) -> (ok: bool)
    ensures
        ok == ids@.no_duplicates(),
{
    let mut i: usize = 0;
    while i < ids.len()
        invariant
            i <= ids.len(),
            forall|a: int, b: int| 0 <= a < i && a < b < ids.len() ==> ids[a] != ids[b],
        decreases ids.len() - i,
    {
        let mut j: usize = i + 1;
        while j < ids.len()
            invariant
                i < ids.len(),
                i < j <= ids.len(),
                forall|b: int| i < b < j ==> ids[i as int] != ids[b],
            decreases ids.len() - j,
        {
            if ids[i] == ids[j] {
                return false;
            }
            j += 1;
        }
        i += 1;
    }
    true
}

/// Tells whether no id occurs twice among the codes of the family `R`.
///
/// A family whose proofs went through always passes. A host that builds its
/// families without proofs calls this once for each, before the first use.
pub fn validate_family<R: ErrorRegistry>() -> (ok: bool)
    ensures
        ok == R::codes_spec().no_duplicates(),
        ok,
{
    let codes = R::all_codes();
    validate_uniqueness(codes.as_slice())
}

/// One occurrence of a code at a place, with an optional note.
pub struct Diagnostic<L: DiagnosticLoc, R: Liaise> {
    pub loc: L,
    pub code: R,
    pub ctx: Option<String>,
}

/// What a `Diagnostic` holds, the note as plain text.
pub ghost struct DiagnosticView<L, R> {
    pub loc: L,
    pub code: R,
    pub ctx: Option<Seq<char>>,
}

impl<L, R: Liaise> DiagnosticView<L, R> {
    /// The message of the occurrence: the rendered code, followed by `: ` and
    /// the note where there is one.
    pub open spec fn text(self) -> Seq<char> {
        match self.ctx {
            Some(c) => with_context_spec(render_spec(self.code), c),
            None => render_spec(self.code),
        }
    }
}

/// A note that was recorded with a code is kept whole: the message begins
/// with the rendered code and ends with the note, and only `: ` stands
/// between them.
pub proof fn lemma_context_is_kept<L, R: Liaise>(report: DiagnosticView<L, R>, note: Seq<char>)
    requires
        report.ctx == Some(note),
    ensures
        report.text().len() == render_spec(report.code).len() + 2 + note.len(),
        report.text().subrange(0, render_spec(report.code).len() as int) == render_spec(
            report.code,
        ),
        report.text().subrange(report.text().len() - note.len(), report.text().len() as int)
            == note,
{
    let shown = render_spec(report.code);
    let text = report.text();
    assert(text.subrange(0, shown.len() as int) =~= shown);
    assert(text.subrange(text.len() - note.len(), text.len() as int) =~= note);
}

impl<L: DiagnosticLoc, R: Liaise> View for Diagnostic<L, R> {
    type V = DiagnosticView<L, R>;

    open spec fn view(&self) -> DiagnosticView<L, R> {
        DiagnosticView {
            loc: self.loc,
            code: self.code,
            ctx: match self.ctx {
                Some(c) => Some(c@),
                None => None,
            },
        }
    }
}

/// A value that another of its kind can be folded into.
///
/// What a value carries is a sequence of texts. Folding keeps both sides whole:
/// the texts of the receiver come first, then those of the other value.
pub trait Combine: Sized {
    /// The texts that the value carries, in the order of their arrival; none
    /// unless the type says otherwise.
    open spec fn parts(&self) -> Seq<Seq<char>> {
        Seq::empty()
    }

    fn combine(&mut self, other: Self)
        ensures
            final(self).parts() == old(self).parts() + other.parts(),
    ;
}

/// The texts of all of `items`, one value after the other.
pub open spec fn all_parts<E: Combine>(items: Seq<E>) -> Seq<Seq<char>>
    decreases items.len(),
{
    if items.len() == 0 {
        Seq::empty()
    } else {
        all_parts(items.drop_last()) + items.last().parts()
    }
}

/// Folding is associative in effect: however a run of values is split in two,
/// the texts of the two parts, one after the other, are the texts of the run.
pub proof fn lemma_all_parts_split<E: Combine>(first: Seq<E>, second: Seq<E>)
    ensures
        all_parts(first + second) == all_parts(first) + all_parts(second),
    decreases second.len(),
{
    if second.len() == 0 {
        assert(first + second =~= first);
        assert(all_parts(first) + all_parts(second) =~= all_parts(first));
    } else {
        lemma_all_parts_split(first, second.drop_last());
        assert((first + second).drop_last() =~= first + second.drop_last());
        assert((first + second).last() == second.last());
        assert(all_parts(first + second) =~= all_parts(first) + all_parts(second));
    }
}

/// Collects values that are errors already and folds each into the one before.
pub struct DiagnosticBuffer<E: Combine> {
    err: Option<E>,
}

impl<E: Combine> View for DiagnosticBuffer<E> {
    type V = Option<E>;

    closed spec fn view(&self) -> Option<E> {
        self.err
    }
}

impl<E: Combine> DiagnosticBuffer<E> {
    /// The texts that the buffer carries so far: none while it is empty.
    pub open spec fn held_parts(&self) -> Seq<Seq<char>> {
        match self@ {
            Some(e) => e.parts(),
            None => Seq::empty(),
        }
    }

    pub fn new() -> (buffer: Self)
        ensures
            buffer@ is None,
    {
        Self { err: None }
    }

    /// Keeps the first value as it is; folds every later one into what is held.
    pub fn push(&mut self, new_err: E)
        ensures
            old(self)@ is None ==> final(self)@ == Some(new_err),
            final(self)@ is Some,
            final(self).held_parts() == old(self).held_parts() + new_err.parts(),
            old(self)@ matches Some(held) ==> (final(self)@ matches Some(now) && now.parts()
                == held.parts() + new_err.parts()),
    {
        match &mut self.err {
            Some(existing) => {
                existing.combine(new_err);
            },
            None => {
                self.err = Some(new_err);
            },
        }
    }

    /// Success where nothing was pushed, else the value that was held.
    pub fn finish(self) -> (out: Result<(), E>)
        ensures
            out == match self@ {
                Some(e) => Err::<(), E>(e),
                None => Ok(()),
            },
    {
        match self.err {
            Some(e) => Err(e),
            None => Ok(()),
        }
    }
}

/// Tells whether `converter` can have answered report by report: it was handed
/// `messages[i]`, which reads as the text of `reports[i]`, together with the
/// place of `reports[i]`, and gave `items[i]`.
pub open spec fn converted<L, R: Liaise, E, F: Fn(String, L) -> E>(
    reports: Seq<DiagnosticView<L, R>>,
    converter: F,
    messages: Seq<String>,
    items: Seq<E>,
) -> bool {
    &&& messages.len() == reports.len()
    &&& items.len() == reports.len()
    &&& forall|i: int|
        0 <= i < reports.len() ==> (#[trigger] messages[i])@ == reports[i].text()
    &&& forall|i: int|
        0 <= i < reports.len() ==> call_ensures(
            converter,
            (messages[i], reports[i].loc),
            #[trigger] items[i],
        )
}

/// Collects occurrences of the codes of one family, each with its place, and
/// turns them into one outcome when the work is over.
pub struct DiagBuffer<L: DiagnosticLoc, R: Liaise> {
    reports: Vec<Diagnostic<L, R>>,
}

impl<L: DiagnosticLoc, R: Liaise> View for DiagBuffer<L, R> {
    type V = Seq<DiagnosticView<L, R>>;

    closed spec fn view(&self) -> Seq<DiagnosticView<L, R>> {
        Seq::new(self.reports@.len(), |i: int| self.reports@[i]@)
    }
}

impl<L: DiagnosticLoc, R: Liaise> DiagBuffer<L, R> {
    pub fn new() -> (buffer: Self)
        ensures
            buffer@ == Seq::<DiagnosticView<L, R>>::empty(),
    {
        let buffer = Self { reports: Vec::new() };
        assert(buffer@ =~= Seq::<DiagnosticView<L, R>>::empty());
        buffer
    }

    /// Records `code` at `loc`, without a note.
    pub fn push(&mut self, loc: L, code: R)
        ensures
            final(self)@ == old(self)@.push(DiagnosticView { loc, code, ctx: None }),
    {
        self.reports.push(Diagnostic { loc, code, ctx: None });
        assert(self@ =~= old(self)@.push(DiagnosticView { loc, code, ctx: None }));
    }

    /// Records `code` at `loc` with the note `ctx`.
    pub fn push_ctx(&mut self, loc: L, code: R, ctx: &str)
        ensures
            final(self)@ == old(self)@.push(DiagnosticView { loc, code, ctx: Some(ctx@) }),
    {
        self.reports.push(Diagnostic { loc, code, ctx: Some(String::from_str(ctx)) });
        assert(self@ =~= old(self)@.push(DiagnosticView { loc, code, ctx: Some(ctx@) }));
    }

    /// Ends the collection. Every report, in the order of recording, is shown
    /// as its message and handed to `converter` with its place; what comes
    /// back is folded, one value into the one before.
    ///
    /// The outcome is success exactly where nothing was recorded. Else it is
    /// one value that carries the texts of all converted values in order; with
    /// a single report it is the converted value itself.
    pub fn finish<E>(self, converter: impl Fn(String, L) -> E) -> (out: Result<(), E>) where
        E: Combine,

        requires
            forall|i: int, m: String|
                0 <= i < self@.len() && m@ == self@[i].text() ==> call_requires(
                    converter,
                    (m, self@[i].loc),
                ),
        ensures
            out is Ok <==> self@.len() == 0,
            out matches Err(e) ==> exists|messages: Seq<String>, items: Seq<E>|
                #![trigger converted(self@, converter, messages, items)]
                {
                    &&& converted(self@, converter, messages, items)
                    &&& e.parts() == all_parts(items)
                    &&& items.len() == 1 ==> e == items[0]
                },
    {
        let ghost reports = self@;
        let ghost mut messages: Seq<String> = Seq::empty();
        let ghost mut items: Seq<E> = Seq::empty();
        let mut folded: DiagnosticBuffer<E> = DiagnosticBuffer::new();
        let held = self.reports;
        assert(reports =~= Seq::new(held@.len(), |i: int| held@[i]@));
        for d in iter: held
            invariant
                iter.seq() == held@,
                reports == Seq::new(held@.len(), |i: int| held@[i]@),
                forall|i: int, m: String|
                    0 <= i < reports.len() && m@ == reports[i].text() ==> call_requires(
                        converter,
                        (m, reports[i].loc),
                    ),
                messages.len() == iter.index(),
                items.len() == iter.index(),
                forall|i: int|
                    0 <= i < iter.index() ==> (#[trigger] messages[i])@ == reports[i].text(),
                forall|i: int|
                    0 <= i < iter.index() ==> call_ensures(
                        converter,
                        (messages[i], reports[i].loc),
                        #[trigger] items[i],
                    ),
                folded@ is None <==> iter.index() == 0,
                folded@ matches Some(e) ==> e.parts() == all_parts(items) && (items.len() == 1
                    ==> e == items[0]),
        {
            let ghost k = iter.index() as int;
            assert(d@ == reports[k]);
            let Diagnostic { loc, code, ctx } = d;
            let msg = match ctx {
                Some(c) => with_context(code.render(), c.as_str()),
                None => code.render(),
            };
            assert(msg@ == reports[k].text());
            let ghost sent = msg;
            assert(loc == reports[k].loc);
            assert(call_requires(converter, (msg, reports[k].loc)));
            let e = converter(msg, loc);
            proof {
                assert(items.push(e).drop_last() =~= items);
                assert(all_parts(items.push(e)) == all_parts(items) + e.parts());
                if items.len() == 0 {
                    assert(all_parts(items) =~= Seq::<Seq<char>>::empty());
                    assert(all_parts(items.push(e)) =~= e.parts());
                }
                messages = messages.push(sent);
                items = items.push(e);
            }
            folded.push(e);
        }
        assert(converted(reports, converter, messages, items));
        folded.finish()
    }
}

} // verus!
