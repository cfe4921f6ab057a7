//! Plain text as the aggregated value: one message on each line.

use vstd::prelude::*;
use vstd::string::*;
use crate::diagnostic::{all_parts, converted, Combine, DiagBuffer, DiagnosticView, Liaise};
use crate::loc::DiagnosticLoc;

verus! {

/// The lines of `s`: what stands between its line breaks. A text without a
/// line break is one line, the empty text too.
pub open spec fn lines(s: Seq<char>) -> Seq<Seq<char>>
    decreases s.len(),
{
    if s.len() == 0 {
        seq![Seq::<char>::empty()]
    } else {
        let head = lines(s.drop_last());
        if s.last() == '\n' {
            head.push(Seq::<char>::empty())
        } else {
            head.drop_last().push(head.last().push(s.last()))
        }
    }
}

/// The texts of `messages`, one after the other, with a line break between
/// each two of them.
pub open spec fn joined(messages: Seq<Seq<char>>) -> Seq<char>
    decreases messages.len(),
{
    if messages.len() == 0 {
        Seq::<char>::empty()
    } else if messages.len() == 1 {
        messages[0]
    } else {
        joined(messages.drop_last()) + seq!['\n'] + messages.last()
    }
}

/// The views of `items`.
pub open spec fn texts(items: Seq<String>) -> Seq<Seq<char>> {
    Seq::new(items.len(), |i: int| items[i]@)
}

/// Every text has at least one line.
pub proof fn lemma_lines_nonempty(s: Seq<char>)
    ensures
        lines(s).len() >= 1,
    decreases s.len(),
{
    if s.len() > 0 {
        lemma_lines_nonempty(s.drop_last());
    }
}

/// The lines of two texts put together with a line break between them are the
/// lines of the first followed by the lines of the second.
pub proof fn lemma_lines_of_join(a: Seq<char>, b: Seq<char>)
    ensures
        lines(a + seq!['\n'] + b) == lines(a) + lines(b),
    decreases b.len(),
{
    let whole = a + seq!['\n'] + b;
    if b.len() == 0 {
        assert(whole.drop_last() =~= a);
        assert(lines(whole) =~= lines(a) + lines(b));
    } else {
        let rest = b.drop_last();
        lemma_lines_of_join(a, rest);
        lemma_lines_nonempty(rest);
        assert(whole.drop_last() =~= a + seq!['\n'] + rest);
        assert(whole.last() == b.last());
        let head = lines(a) + lines(rest);
        assert(head.last() == lines(rest).last());
        assert(head.drop_last() =~= lines(a) + lines(rest).drop_last());
        assert(lines(whole) =~= lines(a) + lines(b));
    }
}

/// To add a character to the last of some messages is to add it to their
/// joined text.
proof fn lemma_joined_grows(init: Seq<Seq<char>>, last: Seq<char>, c: char)
    ensures
        joined(init.push(last.push(c))) == joined(init.push(last)).push(c),
{
    let grown = init.push(last.push(c));
    let plain = init.push(last);
    assert(grown.drop_last() =~= init);
    assert(plain.drop_last() =~= init);
    assert(joined(grown) =~= joined(plain).push(c));
}

/// A text is its lines joined again.
pub proof fn lemma_joined_lines(s: Seq<char>)
    ensures
        joined(lines(s)) == s,
    decreases s.len(),
{
    if s.len() == 0 {
        assert(joined(lines(s)) =~= s);
    } else {
        let rest = s.drop_last();
        lemma_joined_lines(rest);
        lemma_lines_nonempty(rest);
        let head = lines(rest);
        if s.last() == '\n' {
            let all = head.push(Seq::<char>::empty());
            assert(all.drop_last() =~= head);
            assert(joined(all) =~= rest + seq!['\n']);
            assert(rest + seq!['\n'] =~= s);
        } else {
            lemma_joined_grows(head.drop_last(), head.last(), s.last());
            assert(head.drop_last().push(head.last()) =~= head);
            assert(rest.push(s.last()) =~= s);
        }
    }
}

/// Where message `i` begins in the joined text of `messages`: behind all the
/// messages before it and one line break for each of them.
pub open spec fn start_of(messages: Seq<Seq<char>>, i: int) -> int
    decreases i,
{
    if i <= 0 {
        0
    } else {
        start_of(messages, i - 1) + messages[i - 1].len() + 1
    }
}

/// Where a message begins depends on the messages before it alone.
proof fn lemma_start_of_prefix(messages: Seq<Seq<char>>, i: int)
    requires
        0 <= i < messages.len(),
    ensures
        start_of(messages.drop_last(), i) == start_of(messages, i),
        0 <= start_of(messages, i),
    decreases i,
{
    if i > 0 {
        lemma_start_of_prefix(messages, i - 1);
    }
}

/// The joined text ends where a further message would begin, less its line
/// break.
proof fn lemma_joined_len(messages: Seq<Seq<char>>)
    requires
        messages.len() >= 1,
    ensures
        joined(messages).len() + 1 == start_of(messages, messages.len() as int),
    decreases messages.len(),
{
    if messages.len() > 1 {
        lemma_joined_len(messages.drop_last());
        lemma_start_of_prefix(messages, messages.len() - 1);
    } else {
        assert(start_of(messages, 0) == 0);
    }
}

/// Every message stands whole in the joined text, at its place.
pub proof fn lemma_joined_holds_each(messages: Seq<Seq<char>>, i: int)
    requires
        0 <= i < messages.len(),
    ensures
        0 <= start_of(messages, i),
        start_of(messages, i) + messages[i].len() <= joined(messages).len(),
        joined(messages).subrange(start_of(messages, i), start_of(messages, i) + messages[i].len())
            == messages[i],
    decreases messages.len(),
{
    let n = messages.len() as int;
    let init = messages.drop_last();
    let at = start_of(messages, i);
    if n == 1 {
        assert(joined(messages).subrange(0, messages[0].len() as int) =~= messages[0]);
    } else if i == n - 1 {
        lemma_joined_len(init);
        lemma_start_of_prefix(messages, i);
        assert(joined(messages).subrange(at, at + messages[i].len()) =~= messages[i]);
    } else {
        lemma_joined_holds_each(init, i);
        lemma_start_of_prefix(messages, i);
        assert(joined(messages).subrange(at, at + messages[i].len()) =~= joined(init).subrange(
            at,
            at + messages[i].len(),
        ));
    }
}

/// Order is kept: in the joined text an earlier message has ended, and a line
/// break has followed it, before a later message begins.
pub proof fn lemma_earlier_stands_before(messages: Seq<Seq<char>>, i: int, j: int)
    requires
        0 <= i < j < messages.len(),
    ensures
        start_of(messages, i) + messages[i].len() < start_of(messages, j),
        joined(messages)[start_of(messages, i) + messages[i].len()] == '\n',
    decreases j - i,
{
    if i + 1 < j {
        lemma_earlier_stands_before(messages, i, j - 1);
    }
    lemma_separator_follows(messages, i);
}

/// Behind every message but the last stands a line break.
proof fn lemma_separator_follows(messages: Seq<Seq<char>>, i: int)
    requires
        0 <= i < messages.len() - 1,
    ensures
        start_of(messages, i) + messages[i].len() < joined(messages).len(),
        joined(messages)[start_of(messages, i) + messages[i].len()] == '\n',
    decreases messages.len(),
{
    let n = messages.len() as int;
    let init = messages.drop_last();
    let at = start_of(messages, i) + messages[i].len();
    lemma_start_of_prefix(messages, i);
    if i == n - 2 {
        lemma_joined_len(init);
        assert(start_of(init, n - 1) == start_of(init, i) + init[i].len() + 1);
        assert(at == joined(init).len());
    } else {
        lemma_separator_follows(init, i);
        assert(joined(messages)[at] == joined(init)[at]);
    }
}

impl Combine for String {
    open spec fn parts(&self) -> Seq<Seq<char>> {
        lines(self@)
    }

    /// Folding text puts a line break and then the other text at the end.
    fn combine(&mut self, other: Self)
        ensures
            final(self)@ == old(self)@ + seq!['\n'] + other@,
    {
        self.push('\n');
        self.append(other.as_str());
        proof {
            assert(self@ =~= old(self)@ + seq!['\n'] + other@);
            lemma_lines_of_join(old(self)@, other@);
        }
    }
}

/// The texts that some values of text carry together are the lines of their
/// joined text.
pub proof fn lemma_all_parts_of_text(items: Seq<String>)
    requires
        items.len() > 0,
    ensures
        all_parts(items) == lines(joined(texts(items))),
    decreases items.len(),
{
    let init = items.drop_last();
    assert(texts(items).drop_last() =~= texts(init));
    assert(texts(items).last() == items.last()@);
    if items.len() == 1 {
        assert(all_parts(init) =~= Seq::<Seq<char>>::empty());
        assert(all_parts(items) =~= lines(items[0]@));
    } else {
        lemma_all_parts_of_text(init);
        lemma_lines_of_join(joined(texts(init)), items.last()@);
    }
}

/// Folding loses nothing and keeps the order: a text that carries what
/// `items` carry, in their order, reads as the texts of `items` joined with a
/// line break between each two.
pub proof fn lemma_folded_text(items: Seq<String>, e: String)
    requires
        items.len() > 0,
        e.parts() == all_parts(items),
    ensures
        e@ == joined(texts(items)),
{
    lemma_all_parts_of_text(items);
    lemma_joined_lines(e@);
    lemma_joined_lines(joined(texts(items)));
}

/// Of two messages folded into one text the first stands before the second,
/// with one line break between them.
pub proof fn lemma_order_preserved(first: String, second: String, e: String)
    requires
        e.parts() == first.parts() + second.parts(),
    ensures
        e@ == first@ + seq!['\n'] + second@,
{
    lemma_lines_of_join(first@, second@);
    lemma_joined_lines(e@);
    lemma_joined_lines(first@ + seq!['\n'] + second@);
}

/// The messages of `reports`, in their order.
pub open spec fn report_texts<L, R: Liaise>(reports: Seq<DiagnosticView<L, R>>) -> Seq<Seq<char>> {
    Seq::new(reports.len(), |i: int| reports[i].text())
}

/// Ends the collection with the message itself as the converted value: the
/// outcome is success where nothing was recorded, else the messages of all
/// reports in the order of recording, one on each line.
pub fn finish_as_text<L: DiagnosticLoc, R: Liaise>(buffer: DiagBuffer<L, R>) -> (out: Result<
    (),
    String,
>)
    ensures
        out is Ok <==> buffer@.len() == 0,
        out matches Err(e) ==> e@ == joined(report_texts(buffer@)),
{
    let keep = |msg: String, _loc: L| -> (r: String)
        ensures
            r == msg,
        { msg };
    let out = buffer.finish(keep);
    proof {
        if out is Err {
            let e = out->Err_0;
            let (messages, items) = choose|messages: Seq<String>, items: Seq<String>|
                #![trigger converted(buffer@, keep, messages, items)]
                {
                    &&& converted(buffer@, keep, messages, items)
                    &&& e.parts() == all_parts(items)
                    &&& items.len() == 1 ==> e == items[0]
                };
            assert forall|i: int| 0 <= i < items.len() implies (#[trigger] items[i])@
                == buffer@[i].text() by {
                assert(messages[i]@ == buffer@[i].text());
                assert(call_ensures(keep, (messages[i], buffer@[i].loc), items[i]));
            }
            assert(texts(items) =~= report_texts(buffer@));
            lemma_folded_text(items, e);
        }
    }
    out
}

} // verus!
