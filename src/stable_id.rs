//! Identifiers of source files that stay the same from one run to the next.
use vstd::prelude::*;
use crate::file_name::{FileName, FileNameKey};
use crate::source_file::SourceFile;
use crate::text::chars_of;

verus! {

pub const FNV_OFFSET: u128 = 0x6c62272e07bb014262b821756295c58d;

pub const FNV_PRIME: u128 = 0x0000000001000000000000000000013B;

/// One FNV-1a round over a 32-bit word.
pub open spec fn fnv_step(h: u128, w: u32) -> u128 {
    (h ^ (w as u128)).wrapping_mul(FNV_PRIME)
}

/// FNV-1a (128-bit) over a sequence of 32-bit words, from the state `h`.
pub open spec fn fnv_words(h: u128, ws: Seq<u32>) -> u128
    decreases ws.len(),
{
    if ws.len() == 0 {
        h
    } else {
        fnv_step(fnv_words(h, ws.drop_last()), ws.last())
    }
}

/// The words of a text: its length, then each character.
pub open spec fn text_words(s: Seq<char>) -> Seq<u32> {
    seq![s.len() as u32] + s.map_values(|c: char| c as u32)
}

/// The words of a file name: a tag for the kind, then the text it carries.
pub open spec fn name_words(n: FileNameKey) -> Seq<u32> {
    match n {
        FileNameKey::Real(s) => seq![1u32] + text_words(s),
        FileNameKey::Macros(s) => seq![2u32] + text_words(s),
        FileNameKey::QuoteExpansion => seq![3u32],
        FileNameKey::Anon => seq![4u32],
        FileNameKey::MacroExpansion => seq![5u32],
        FileNameKey::ProcMacroSourceCode => seq![6u32],
        FileNameKey::Url(s) => seq![7u32] + text_words(s),
        FileNameKey::Internal(s) => seq![8u32] + text_words(s),
        FileNameKey::Custom(s) => seq![9u32] + text_words(s),
    }
}

/// The words that identify a file: its name, whether it was remapped, and
/// its name before remapping.
pub open spec fn file_words(name: FileNameKey, was_remapped: bool, unmapped: Option<FileNameKey>) -> Seq<u32> {
    name_words(name) + seq![if was_remapped { 1u32 } else { 0u32 }] + match unmapped {
        Some(u) => seq![1u32] + name_words(u),
        None => seq![0u32],
    }
}

/// The stable identifier of a file.
pub open spec fn stable_id_of(f: SourceFile) -> u128 {
    fnv_words(
        FNV_OFFSET,
        file_words(
            f.name@,
            f.name_was_remapped,
            match f.unmapped_path {
                Some(u) => Some(u@),
                None => None,
            },
        ),
    )
}

/// A hash of a file's names, the same in every run for the same names.
#[derive(Copy, Clone, PartialEq, Eq, Hash, Debug, Structural)]
pub struct StableSourceFileId(pub u128);

fn fnv_feed(h: u128, w: u32) -> (r: u128)
    ensures
        r == fnv_step(h, w),
{
    (h ^ (w as u128)).wrapping_mul(FNV_PRIME)
}

fn feed_text(h: u128, s: &String) -> (r: u128)
    ensures
        forall|h0: u128, pre: Seq<u32>|
            #[trigger] fnv_words(h0, pre) == h ==> r == fnv_words(h0, pre + text_words(s@)),
{
    let cs = chars_of(s.as_str());
    let mut acc = fnv_feed(h, cs.len() as u32);
    let mut i: usize = 0;
    let ghost ws = s@.map_values(|c: char| c as u32);
    proof {
        assert forall|h0: u128, pre: Seq<u32>| #[trigger] fnv_words(h0, pre) == h implies acc == fnv_words(
            h0,
            pre + seq![cs@.len() as u32] + ws.take(0),
        ) by {
            let with_len = pre + seq![cs@.len() as u32];
            assert(with_len.drop_last() =~= pre);
            assert(with_len + ws.take(0) =~= with_len);
        }
    }
    while i < cs.len()
        invariant
            cs@ == s@,
            ws == s@.map_values(|c: char| c as u32),
            i <= cs@.len(),
            forall|h0: u128, pre: Seq<u32>|
                #[trigger] fnv_words(h0, pre) == h ==> acc == fnv_words(h0, pre + seq![cs@.len() as u32] + ws.take(i as int)),
        decreases cs@.len() - i,
    {
        let ghost old_acc = acc;
        acc = fnv_feed(acc, cs[i] as u32);
        proof {
            assert forall|h0: u128, pre: Seq<u32>| #[trigger] fnv_words(h0, pre) == h implies acc == fnv_words(
                h0,
                pre + seq![cs@.len() as u32] + ws.take(i + 1),
            ) by {
                let a = pre + seq![cs@.len() as u32] + ws.take(i as int);
                let b = pre + seq![cs@.len() as u32] + ws.take(i + 1);
                assert(b.drop_last() =~= a);
            }
        }
        i = i + 1;
    }
    proof {
        assert(ws.take(cs@.len() as int) =~= ws);
        assert forall|h0: u128, pre: Seq<u32>| #[trigger] fnv_words(h0, pre) == h implies acc == fnv_words(
            h0,
            pre + text_words(s@),
        ) by {
            assert(pre + seq![cs@.len() as u32] + ws =~= pre + text_words(s@));
        }
    }
    acc
}

fn feed_word(h: u128, w: u32) -> (r: u128)
    ensures
        forall|h0: u128, pre: Seq<u32>|
            #[trigger] fnv_words(h0, pre) == h ==> r == fnv_words(h0, pre + seq![w]),
{
    let r = fnv_feed(h, w);
    proof {
        assert forall|h0: u128, pre: Seq<u32>| #[trigger] fnv_words(h0, pre) == h implies r == fnv_words(
            h0,
            pre + seq![w],
        ) by {
            assert((pre + seq![w]).drop_last() =~= pre);
        }
    }
    r
}

fn feed_name(h: u128, n: &FileName) -> (r: u128)
    ensures
        forall|h0: u128, pre: Seq<u32>|
            #[trigger] fnv_words(h0, pre) == h ==> r == fnv_words(h0, pre + name_words(n@)),
{
    let (tag, text): (u32, Option<&String>) = match n {
        FileName::Real(s) => (1, Some(s)),
        FileName::Macros(s) => (2, Some(s)),
        FileName::QuoteExpansion => (3, None),
        FileName::Anon => (4, None),
        FileName::MacroExpansion => (5, None),
        FileName::ProcMacroSourceCode => (6, None),
        FileName::Url(s) => (7, Some(s)),
        FileName::Internal(s) => (8, Some(s)),
        FileName::Custom(s) => (9, Some(s)),
    };
    let h1 = feed_word(h, tag);
    match text {
        Some(s) => {
            let r = feed_text(h1, s);
            proof {
                assert forall|h0: u128, pre: Seq<u32>| #[trigger] fnv_words(h0, pre) == h implies r == fnv_words(
                    h0,
                    pre + name_words(n@),
                ) by {
                    assert(pre + seq![tag] + text_words(s@) =~= pre + name_words(n@));
                }
            }
            r
        },
        None => {
            proof {
                assert forall|h0: u128, pre: Seq<u32>| #[trigger] fnv_words(h0, pre) == h implies h1 == fnv_words(
                    h0,
                    pre + name_words(n@),
                ) by {
                    assert(pre + seq![tag] =~= pre + name_words(n@));
                }
            }
            h1
        },
    }
}

impl StableSourceFileId {
    /// The identifier of a file: the 128-bit FNV-1a hash of its name, its
    /// remapping flag and its name before remapping.
    pub fn new(source_file: &SourceFile) -> (r: StableSourceFileId)
        ensures
            r.0 == stable_id_of(*source_file),
    {
        let ghost e: Seq<u32> = seq![];
        let ghost nw = name_words(source_file.name@);
        let flag: u32 = if source_file.name_was_remapped { 1 } else { 0 };
        proof {
            assert(e + nw =~= nw);
            assert(fnv_words(FNV_OFFSET, e) == FNV_OFFSET);
        }
        let h = feed_name(FNV_OFFSET, &source_file.name);
        assert(h == fnv_words(FNV_OFFSET, nw));
        let h = feed_word(h, flag);
        assert(h == fnv_words(FNV_OFFSET, nw + seq![flag]));
        let h = match &source_file.unmapped_path {
            Some(u) => {
                let h2 = feed_word(h, 1);
                let h3 = feed_name(h2, u);
                assert(nw + seq![flag] + seq![1u32] + name_words(u@) =~= nw + seq![flag] + (seq![1u32] + name_words(u@)));
                h3
            },
            None => feed_word(h, 0),
        };
        StableSourceFileId(h)
    }
}

} // verus!
