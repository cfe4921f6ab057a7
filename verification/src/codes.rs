//! A small family of codes, `ABUT`, for buffer and I/O faults.

use vstd::prelude::*;
use vstd::string::*;
use crate::diagnostic::{render_spec, ErrorRegistry, Liaise};
use crate::text::{decimal, lemma_decimal_len, push_decimal, zero_padded, zeros};

verus! {

#[derive(Copy, Clone, Debug)]
pub enum AbutCode {
    /// Reading or writing failed.
    Io,
    /// A buffer was too small; `needed` is the size in bytes that was asked for.
    BufferTooSmall { needed: usize },
}

impl ErrorRegistry for AbutCode {
    open spec fn prefix_spec() -> Seq<char> {
        "ABUT"@
    }

    open spec fn codes_spec() -> Seq<u16> {
        seq![1u16, 2u16]
    }

    fn registry_prefix() -> &'static str {
        "ABUT"
    }

    fn all_codes() -> Vec<u16> {
        let mut codes: Vec<u16> = Vec::new();
        codes.push(1);
        codes.push(2);
        assert(codes@ =~= Self::codes_spec());
        codes
    }
}

impl Liaise for AbutCode {
    open spec fn code_spec(self) -> u16 {
        match self {
            AbutCode::Io => 1,
            AbutCode::BufferTooSmall { .. } => 2,
        }
    }

    open spec fn message_spec(self) -> Seq<char> {
        match self {
            AbutCode::Io => "I/O failure"@,
            AbutCode::BufferTooSmall { needed } => "Buffer too small (need "@ + decimal(
                needed as nat,
            ) + " bytes)"@,
        }
    }

    fn code_id(self) -> u16 {
        assert(Self::codes_spec()[0] == 1u16);
        assert(Self::codes_spec()[1] == 2u16);
        match self {
            AbutCode::Io => 1,
            AbutCode::BufferTooSmall { .. } => 2,
        }
    }

    fn message(self) -> String {
        match self {
            AbutCode::Io => String::from_str("I/O failure"),
            AbutCode::BufferTooSmall { needed } => {
                let mut m = String::from_str("Buffer too small (need ");
                push_decimal(&mut m, needed as u64);
                m.append(" bytes)");
                m
            },
        }
    }
}

/// A code with the id 1 in a family with the prefix `ABUT` is rendered as
/// `[ABUT0001] ` and its message.
pub proof fn lemma_first_code_envelope<R: Liaise>(code: R)
    requires
        R::prefix_spec() == "ABUT"@,
        code.code_spec() == 1,
    ensures
        render_spec(code) == "[ABUT0001] "@ + code.message_spec(),
{
    reveal_strlit("ABUT");
    reveal_strlit("[ABUT0001] ");
    lemma_decimal_len(1);
    assert(zero_padded(1, 4) =~= seq!['0', '0', '0', '1']) by {
        assert(decimal(1) =~= seq!['1']);
        assert(zeros(3) =~= seq!['0', '0', '0']);
    }
    assert(render_spec(code) =~= "[ABUT0001] "@ + code.message_spec());
}

/// The size that a `BufferTooSmall` holds stands in its rendered text, in
/// decimal, between `need ` and ` bytes`.
pub proof fn lemma_needed_is_shown(needed: usize)
    ensures
        render_spec(AbutCode::BufferTooSmall { needed }) == "[ABUT0002] Buffer too small (need "@
            + decimal(needed as nat) + " bytes)"@,
{
    reveal_strlit("ABUT");
    reveal_strlit("[ABUT0002] Buffer too small (need ");
    reveal_strlit("Buffer too small (need ");
    lemma_decimal_len(2);
    assert(zero_padded(2, 4) =~= seq!['0', '0', '0', '2']) by {
        assert(decimal(2) =~= seq!['2']);
        assert(zeros(3) =~= seq!['0', '0', '0']);
    }
    assert(render_spec(AbutCode::BufferTooSmall { needed }) =~= "[ABUT0002] Buffer too small (need "@
        + decimal(needed as nat) + " bytes)"@);
}

} // verus!
