//! Progress: lines are taken apart at their colons, and the meter follows what they say.
use vstd::prelude::*;

use crate::progress::{
    index_of, is_space, is_whitespace, parse_line, piece, split_at_most, splitn, trim, trim_end,
    trim_start, trimmed, DpkgProgress, ProgressLine, ProgressMeter,
};
use crate::text::texts;

verus! {

/// The pieces with a `c` between each and the next.
pub open spec fn joined(pieces: Seq<Seq<char>>, c: char) -> Seq<char>
    decreases pieces.len(),
{
    if pieces.len() == 0 {
        seq![]
    } else if pieces.len() == 1 {
        pieces[0]
    } else {
        pieces[0] + seq![c] + joined(pieces.drop_first(), c)
    }
}

/// There are one to `n` pieces. None holds a `c`, but for the last of `n`.
pub open spec fn are_pieces(pieces: Seq<Seq<char>>, c: char, n: nat) -> bool {
    &&& 1 <= pieces.len() <= n
    &&& forall|j: int, i: int|
        0 <= j < pieces.len() && (j < pieces.len() - 1 || pieces.len() < n) && 0 <= i
            < pieces[j].len() ==> #[trigger] pieces[j][i] != c
}

proof fn lemma_index(s: Seq<char>, c: char, i: int)
    requires
        0 <= i <= s.len(),
        forall|j: int| 0 <= j < i ==> s[j] != c,
        i < s.len() ==> s[i] == c,
    ensures
        index_of(s, c) == i,
    decreases s.len(),
{
    if s.len() > 0 && s[0] != c {
        lemma_index(s.drop_first(), c, i - 1);
    }
}

proof fn lemma_split_joined(pieces: Seq<Seq<char>>, c: char, n: nat)
    requires
        are_pieces(pieces, c, n),
    ensures
        split_at_most(joined(pieces, c), c, n) == pieces,
    decreases pieces.len(),
{
    let s = joined(pieces, c);
    if pieces.len() == 1 {
        assert(pieces =~= seq![s]);
        if n > 1 {
            lemma_index(s, c, s.len() as int);
        }
    } else {
        let first = pieces[0];
        let rest = pieces.drop_first();
        let i = first.len() as int;
        assert forall|j: int| 0 <= j < i implies s[j] != c by {
            assert(s[j] == pieces[0][j]);
        }
        lemma_index(s, c, i);
        assert forall|j: int, l: int|
            0 <= j < rest.len() && (j < rest.len() - 1 || rest.len() < n - 1) && 0 <= l
                < rest[j].len() implies #[trigger] rest[j][l] != c by {
            assert(rest[j][l] == pieces[j + 1][l]);
        }
        lemma_split_joined(rest, c, (n - 1) as nat);
        assert(s.subrange(0, i) =~= first);
        assert(s.skip(i + 1) =~= joined(rest, c));
        assert(pieces =~= seq![first] + rest);
    }
}

/// Splitting undoes joining: the pieces that a text is joined from are the pieces that it is
/// split into, and the last of as many as are allowed is the whole rest.
pub proof fn law_splitting_undoes_joining(
    s: &str,
    c: char,
    n: usize,
    parts: Vec<String>,
    pieces: Seq<Seq<char>>,
)
    requires
        call_ensures(splitn, (s, c, n), parts),
        are_pieces(pieces, c, n as nat),
        s@ == joined(pieces, c),
    ensures
        parts@.len() == pieces.len(),
        forall|j: int| 0 <= j < parts@.len() ==> (#[trigger] parts@[j])@ == pieces[j],
{
    lemma_split_joined(pieces, c, n as nat);
    assert(texts(parts@).len() == parts@.len());
    assert forall|j: int| 0 <= j < parts@.len() implies (#[trigger] parts@[j])@ == pieces[j] by {
        assert(texts(parts@)[j] == parts@[j]@);
    }
}

/// White space: tabs and line ends, the space, and the spaces and separators of Unicode.
pub open spec fn white(c: char) -> bool {
    ||| '\t' <= c <= '\r'
    ||| c == ' '
    ||| c == '\u{85}'
    ||| c == '\u{a0}'
    ||| c == '\u{1680}'
    ||| '\u{2000}' <= c <= '\u{200a}'
    ||| c == '\u{2028}'
    ||| c == '\u{2029}'
    ||| c == '\u{202f}'
    ||| c == '\u{205f}'
    ||| c == '\u{3000}'
}

pub proof fn law_white_space_is_known(c: char, b: bool)
    requires
        call_ensures(is_whitespace, (c,), b),
    ensures
        b <==> white(c),
{
}

/// All of the text is white space.
pub open spec fn all_white(s: Seq<char>) -> bool {
    forall|i: int| 0 <= i < s.len() ==> white(#[trigger] s[i])
}

/// The text is `core` with white space around it, and `core` neither begins nor ends with white
/// space.
pub open spec fn has_core(s: Seq<char>, core: Seq<char>) -> bool {
    &&& core.len() > 0 ==> !white(core[0]) && !white(core[core.len() - 1])
    &&& exists|before: Seq<char>, after: Seq<char>|
        all_white(before) && all_white(after) && s == #[trigger] (before + core + after)
}

proof fn lemma_white(c: char)
    ensures
        is_space(c) == white(c),
{
}

proof fn lemma_trim_start(before: Seq<char>, rest: Seq<char>)
    requires
        all_white(before),
        rest.len() > 0 ==> !white(rest[0]),
    ensures
        trim_start(before + rest) == rest,
    decreases before.len(),
{
    if before.len() > 0 {
        lemma_white(before[0]);
        assert((before + rest)[0] == before[0]);
        assert((before + rest).drop_first() =~= before.drop_first() + rest);
        assert(all_white(before.drop_first()));
        lemma_trim_start(before.drop_first(), rest);
    } else {
        assert(before + rest =~= rest);
        if rest.len() > 0 {
            lemma_white(rest[0]);
        }
    }
}

proof fn lemma_trim_end(rest: Seq<char>, after: Seq<char>)
    requires
        all_white(after),
        rest.len() > 0 ==> !white(rest[rest.len() - 1]),
    ensures
        trim_end(rest + after) == rest,
    decreases after.len(),
{
    if after.len() > 0 {
        lemma_white(after[after.len() - 1]);
        assert((rest + after).last() == after[after.len() - 1]);
        assert((rest + after).drop_last() =~= rest + after.drop_last());
        assert(all_white(after.drop_last()));
        lemma_trim_end(rest, after.drop_last());
    } else {
        assert(rest + after =~= rest);
        if rest.len() > 0 {
            lemma_white(rest[rest.len() - 1]);
        }
    }
}

proof fn lemma_trimmed(s: Seq<char>, core: Seq<char>)
    requires
        has_core(s, core),
    ensures
        trimmed(s) == core,
{
    let (before, after) = choose|before: Seq<char>, after: Seq<char>|
        all_white(before) && all_white(after) && s == #[trigger] (before + core + after);
    if core.len() == 0 {
        assert(s =~= before + after);
        assert forall|i: int| 0 <= i < s.len() implies white(#[trigger] s[i]) by {
            if i < before.len() {
                assert(white(before[i]));
            } else {
                assert(white(after[i - before.len()]));
            }
        }
        assert(s =~= s + core);
        lemma_trim_start(s, core);
        assert(core =~= core + Seq::<char>::empty());
        lemma_trim_end(core, Seq::empty());
    } else {
        assert(s =~= before + (core + after));
        lemma_trim_start(before, core + after);
        lemma_trim_end(core, after);
    }
}

/// Trimming takes the white space around a text off, all of it and nothing else.
pub proof fn law_trimming_leaves_the_core(s: &str, r: String, core: Seq<char>)
    requires
        call_ensures(trim, (s,), r),
        has_core(s@, core),
    ensures
        r@ == core,
{
    lemma_trimmed(s@, core);
}

/// The piece at a place, or nothing.
pub open spec fn piece_at(pieces: Seq<Seq<char>>, i: int) -> Seq<char> {
    if i < pieces.len() {
        pieces[i]
    } else {
        seq![]
    }
}

/// A line is taken apart at its first three colons. The first piece says what it reports, the
/// second names its subject, the third its percentage, all without the white space around them.
/// The fourth is the message, colons and all; of a line that reports anything else the message is
/// the whole line.
pub proof fn law_line_is_taken_apart(
    line: &str,
    r: ProgressLine,
    pieces: Seq<Seq<char>>,
    name: Seq<char>,
    subject: Seq<char>,
    percent: Seq<char>,
)
    requires
        call_ensures(parse_line, (line,), r),
        are_pieces(pieces, ':', 4),
        line@ == joined(pieces, ':'),
        has_core(piece_at(pieces, 0), name),
        has_core(piece_at(pieces, 1), subject),
        has_core(piece_at(pieces, 2), percent),
    ensures
        r.subject@ == subject,
        r.percent@ == percent,
        r.kind is Status <==> name == "pmstatus"@,
        r.kind is Error <==> name == "pmerror"@,
        r.kind is Conffile <==> name == "pmconffile"@,
        r.kind is Download <==> name == "dlstatus"@,
        r.kind is Raw ==> r.description@ == line@,
        r.kind !is Raw ==> r.description@ == piece_at(pieces, 3),
{
    reveal_strlit("pmstatus");
    reveal_strlit("pmerror");
    reveal_strlit("pmconffile");
    reveal_strlit("dlstatus");
    assert("pmstatus"@[0] == 'p' && "dlstatus"@[0] == 'd');
    assert("pmstatus"@.len() == 8 && "pmerror"@.len() == 7 && "pmconffile"@.len() == 10);
    lemma_split_joined(pieces, ':', 4);
    assert(piece(line@, 0) =~= piece_at(pieces, 0));
    assert(piece(line@, 1) =~= piece_at(pieces, 1));
    assert(piece(line@, 2) =~= piece_at(pieces, 2));
    assert(piece(line@, 3) =~= piece_at(pieces, 3));
    lemma_trimmed(piece_at(pieces, 0), name);
    lemma_trimmed(piece_at(pieces, 1), subject);
    lemma_trimmed(piece_at(pieces, 2), percent);
}

/// A meter starts at nought.
pub proof fn law_meter_starts_at_nought(m: ProgressMeter)
    requires
        call_ensures(ProgressMeter::new, (), m),
    ensures
        m.overall() == 0,
{
}

/// A line of progress moves the meter up to its percentage, if that is a number and beyond it,
/// but never beyond a hundred; nothing else moves it. The report tells where the meter stands, and
/// of the line what it reports, its subject and its message. Percentages are the bits of
/// single-precision numbers: 0x42c8_0000 is a hundred, and what is above 0x7f80_0000 is negative
/// or no number.
pub proof fn law_meter_follows_progress(
    m: &mut ProgressMeter,
    line: ProgressLine,
    percent: Option<u32>,
    r: DpkgProgress,
)
    requires
        call_ensures(ProgressMeter::report, (m, line, percent), r),
    ensures
        r.percent == final(m).overall(),
        r.package_or_dpkg_exec@ == line.subject@,
        r.description@ == line.description@,
        line.kind !is Status || percent is None ==> final(m).overall() == old(m).overall(),
        line.kind is Status && percent is Some && percent->0 <= 0x42c8_0000
            ==> final(m).overall() == if percent->0 > old(m).overall() {
            percent->0
        } else {
            old(m).overall()
        },
        line.kind is Status && percent is Some && 0x42c8_0000 < percent->0 <= 0x7f80_0000
            ==> final(m).overall() == if 0x42c8_0000 > old(m).overall() {
            0x42c8_0000
        } else {
            old(m).overall()
        },
        line.kind is Status && percent is Some && percent->0 > 0x7f80_0000
            ==> final(m).overall() == old(m).overall(),
        line.kind is Status ==> r.status@ == "pmstatus"@ && r.stage@ == "dpkg"@,
        line.kind is Error ==> r.status@ == "pmerror"@ && r.stage@ == "dpkg"@,
        line.kind is Conffile ==> r.status@ == "pmconffile"@ && r.stage@ == "dpkg"@,
        line.kind is Download ==> r.status@ == "dlstatus"@ && r.stage@ == "download"@,
        line.kind is Raw ==> r.status@ == "dpkg_raw"@ && r.stage@ == "dpkg_raw"@,
{
}

} // verus!
