//! Rendering of the run's single summary line.
//!
//! The byte total is rendered by the `bytesize` crate's human-readable
//! formatter and then compacted: the formatter separates number and unit
//! with a space, while the summary line writes them as one token.

use vstd::prelude::*;

verus! {

/// The human-readable rendering that the `bytesize` crate gives a byte
/// count; a pure function of the count.
pub uninterp spec fn size_display(bytes: u64) -> Seq<char>;

/// Relies on `bytesize::ByteSize`'s `Display` implementation, which
/// renders in binary units: the rendering depends on the byte count alone.
#[verifier::external_body]
fn display_size(bytes: u64) -> (r: String)
    ensures
        r@ == size_display(bytes),
{
    format!("{}", bytesize::ByteSize::b(bytes))
}

/// The text with every space removed.
pub open spec fn without_spaces(s: Seq<char>) -> Seq<char>
    decreases s.len(),
{
    if s.len() == 0 {
        Seq::empty()
    } else {
        without_spaces(s.drop_last()) + (if s.last() == ' ' {
            Seq::empty()
        } else {
            seq![s.last()]
        })
    }
}

/// Removes every space from the text.
fn compact(s: &str) -> (r: String)
    ensures
        r@ == without_spaces(s@),
{
    let n = s.unicode_len();
    let mut acc = String::new();
    let mut i: usize = 0;
    proof {
        assert(without_spaces(s@.subrange(0, 0)) =~= Seq::<char>::empty());
    }
    while i < n
        invariant
            n == s@.len(),
            0 <= i <= n,
            acc@ == without_spaces(s@.subrange(0, i as int)),
        decreases n - i,
    {
        let ghost pre = s@.subrange(0, i as int);
        let ghost post = s@.subrange(0, i + 1);
        proof {
            assert(post.drop_last() =~= pre);
            assert(post.last() == s@[i as int]);
        }
        if s.get_char(i) != ' ' {
            let piece = s.substring_char(i, i + 1);
            acc.append(piece);
            proof {
                assert(piece@ =~= seq![s@[i as int]]);
                assert(acc@ =~= without_spaces(post));
            }
        } else {
            proof {
                assert(acc@ =~= without_spaces(post));
            }
        }
        i = i + 1;
    }
    proof {
        assert(s@.subrange(0, n as int) =~= s@);
    }
    acc
}

/// The summary line's fixed prefix, conditioned on dry-run mode.
pub open spec fn summary_prefix(dry_run: bool) -> Seq<char> {
    if dry_run {
        "Total space that will be saved: "@
    } else {
        "Total space saved: "@
    }
}

/// The one summary line the run emits: the fixed wording for the active
/// mode, followed by the compacted human-readable total.
pub open spec fn spec_summary_line(total: u64, dry_run: bool) -> Seq<char> {
    summary_prefix(dry_run) + without_spaces(size_display(total))
}

/// Renders the run's summary line.
pub fn summary_line(total: u64, dry_run: bool) -> (r: String)
    ensures
        r@ == spec_summary_line(total, dry_run),
{
    let prefix = if dry_run {
        "Total space that will be saved: "
    } else {
        "Total space saved: "
    };
    let mut line = String::from_str(prefix);
    let rendered = display_size(total);
    let compacted = compact(rendered.as_str());
    line.append(compacted.as_str());
    line
}

} // verus!
