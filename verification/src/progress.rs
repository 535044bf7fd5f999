//! The progress of the package manager, line by line. A line is `TYPE:ARG1:ARG2:MESSAGE`,
//! and the message may itself hold colons.
use vstd::prelude::*;

use crate::text::{same_text, texts};

verus! {

/// Unicode's white space.
pub open spec fn is_space(c: char) -> bool {
    let n = c as u32;
    9 <= n <= 13 || n == 0x20 || n == 0x85 || n == 0xa0 || n == 0x1680 || 0x2000 <= n <= 0x200a || n
        == 0x2028 || n == 0x2029 || n == 0x202f || n == 0x205f || n == 0x3000
}

pub fn is_whitespace(c: char) -> (b: bool)
    ensures
        b == is_space(c),
{
    let n: u32 = c as u32;
    (9 <= n && n <= 13) || n == 0x20 || n == 0x85 || n == 0xa0 || n == 0x1680 || (0x2000 <= n && n
        <= 0x200a) || n == 0x2028 || n == 0x2029 || n == 0x202f || n == 0x205f || n == 0x3000
}

/// A text without the white space that it begins with.
pub open spec fn trim_start(s: Seq<char>) -> Seq<char>
    decreases s.len(),
{
    if s.len() > 0 && is_space(s[0]) {
        trim_start(s.drop_first())
    } else {
        s
    }
}

/// A text without the white space that it ends with.
pub open spec fn trim_end(s: Seq<char>) -> Seq<char>
    decreases s.len(),
{
    if s.len() > 0 && is_space(s.last()) {
        trim_end(s.drop_last())
    } else {
        s
    }
}

/// A text without the white space around it.
pub open spec fn trimmed(s: Seq<char>) -> Seq<char> {
    trim_end(trim_start(s))
}

/// Where the first `c` stands, or the length.
pub open spec fn index_of(s: Seq<char>, c: char) -> nat
    decreases s.len(),
{
    if s.len() == 0 || s[0] == c {
        0
    } else {
        1 + index_of(s.drop_first(), c)
    }
}

proof fn lemma_index_of(s: Seq<char>, c: char, i: int)
    requires
        0 <= i <= s.len(),
        forall|j: int| 0 <= j < i ==> s[j] != c,
        i < s.len() ==> s[i] == c,
    ensures
        index_of(s, c) == i,
    decreases s.len(),
{
    if s.len() > 0 && s[0] != c {
        lemma_index_of(s.drop_first(), c, i - 1);
    }
}

/// The pieces of a text between `c`, at most `n` of them: the last is the whole rest.
pub open spec fn split_at_most(s: Seq<char>, c: char, n: nat) -> Seq<Seq<char>>
    decreases n,
{
    let i = index_of(s, c) as int;
    if n == 0 {
        seq![]
    } else if n == 1 || i >= s.len() {
        seq![s]
    } else {
        seq![s.subrange(0, i)] + split_at_most(s.skip(i + 1), c, (n - 1) as nat)
    }
}

fn chars_of(s: &str) -> (v: Vec<char>)
    ensures
        v@ == s@,
{
    let mut v: Vec<char> = Vec::new();
    for c in it: s.chars()
        invariant
            v@ == it.seq().subrange(0, it.index()),
    {
        v.push(c);
        assert(v@ =~= it.seq().subrange(0, it.index() + 1));
    }
    assert(v@ =~= s@);
    v
}

fn string_of(v: &Vec<char>, from: usize, to: usize) -> (s: String)
    requires
        from <= to <= v.len(),
    ensures
        s@ == v@.subrange(from as int, to as int),
{
    let mut s = String::new();
    let mut i: usize = from;
    assert(v@.subrange(from as int, from as int) =~= seq![]);
    while i < to
        invariant
            from <= i <= to <= v.len(),
            s@ == v@.subrange(from as int, i as int),
        decreases to - i,
    {
        s.push(v[i]);
        i = i + 1;
        assert(s@ =~= v@.subrange(from as int, i as int));
    }
    s
}

/// Splits a text between `c` into at most `n` pieces.
pub fn splitn(s: &str, c: char, n: usize) -> (pieces: Vec<String>)
    ensures
        texts(pieces@) == split_at_most(s@, c, n as nat),
{
    let v = chars_of(s);
    let mut pieces: Vec<String> = Vec::new();
    if n == 0 {
        assert(texts(pieces@) =~= seq![]);
        return pieces;
    }
    let mut from: usize = 0;
    let mut left: usize = n;
    let mut i: usize = 0;
    proof {
        assert(v@.skip(0) =~= v@);
        assert(texts(pieces@) + split_at_most(v@, c, n as nat) =~= split_at_most(v@, c, n as nat));
    }
    while left > 1 && i < v.len()
        invariant
            v@ == s@,
            from <= i <= v.len(),
            1 <= left <= n,
            forall|j: int| from <= j < i ==> v@[j] != c,
            texts(pieces@) + split_at_most(v@.skip(from as int), c, left as nat)
                == split_at_most(s@, c, n as nat),
        decreases v.len() - i,
    {
        if v[i] == c {
            let ghost rest = v@.skip(from as int);
            let ghost before = pieces@;
            pieces.push(string_of(&v, from, i));
            proof {
                lemma_index_of(rest, c, i - from);
                assert(rest.subrange(0, i - from) =~= v@.subrange(from as int, i as int));
                assert(rest.skip(i - from + 1) =~= v@.skip(i + 1));
                assert(texts(pieces@) =~= texts(before).push(rest.subrange(0, i - from)));
                assert(texts(pieces@) + split_at_most(v@.skip(i + 1), c, (left - 1) as nat)
                    =~= texts(before) + split_at_most(rest, c, left as nat));
            }
            from = i + 1;
            left = left - 1;
        }
        i = i + 1;
    }
    let ghost rest = v@.skip(from as int);
    let ghost before = pieces@;
    proof {
        if left > 1 {
            lemma_index_of(rest, c, rest.len() as int);
        }
        assert(split_at_most(rest, c, left as nat) =~= seq![rest]);
    }
    pieces.push(string_of(&v, from, v.len()));
    proof {
        assert(v@.subrange(from as int, v.len() as int) =~= rest);
        assert(texts(pieces@) =~= texts(before) + seq![rest]);
    }
    pieces
}

/// Takes the white space around a text off.
pub fn trim(s: &str) -> (r: String)
    ensures
        r@ == trimmed(s@),
{
    let v = chars_of(s);
    let mut start: usize = 0;
    assert(v@.skip(0) =~= v@);
    while start < v.len() && is_whitespace(v[start])
        invariant
            start <= v.len(),
            trim_start(v@) == trim_start(v@.skip(start as int)),
        decreases v.len() - start,
    {
        assert(v@.skip(start as int).drop_first() =~= v@.skip(start + 1));
        start = start + 1;
    }
    let mut end: usize = v.len();
    assert(v@.subrange(start as int, end as int) =~= v@.skip(start as int));
    while end > start && is_whitespace(v[end - 1])
        invariant
            start <= end <= v.len(),
            trim_end(v@.skip(start as int)) == trim_end(v@.subrange(start as int, end as int)),
        decreases end,
    {
        assert(v@.subrange(start as int, end as int).drop_last() =~= v@.subrange(
            start as int,
            end - 1,
        ));
        end = end - 1;
    }
    string_of(&v, start, end)
}

/// What a line reports.
#[derive(Clone, Copy, Debug, PartialEq, Eq, Structural)]
pub enum LineKind {
    /// Progress: the second argument is the overall percentage.
    Status,
    /// An error.
    Error,
    /// A question about a configuration file.
    Conffile,
    /// Progress of a download, which is not that of the operation.
    Download,
    /// Anything else.
    Raw,
}

/// What a line of this type reports.
pub open spec fn kind_of(name: Seq<char>) -> LineKind {
    if name == "pmstatus"@ {
        LineKind::Status
    } else if name == "pmerror"@ {
        LineKind::Error
    } else if name == "pmconffile"@ {
        LineKind::Conffile
    } else if name == "dlstatus"@ {
        LineKind::Download
    } else {
        LineKind::Raw
    }
}

fn line_kind(name: &str) -> (kind: LineKind)
    ensures
        kind == kind_of(name@),
{
    if same_text(name, "pmstatus") {
        LineKind::Status
    } else if same_text(name, "pmerror") {
        LineKind::Error
    } else if same_text(name, "pmconffile") {
        LineKind::Conffile
    } else if same_text(name, "dlstatus") {
        LineKind::Download
    } else {
        LineKind::Raw
    }
}

/// A line that was taken apart.
pub struct ProgressLine {
    pub kind: LineKind,
    /// The package, or whatever else the first argument names.
    pub subject: String,
    /// The second argument: of progress, the percentage.
    pub percent: String,
    /// The message; of a line that reports anything else, the whole line.
    pub description: String,
}

/// The piece of a line at a place, or nothing.
pub open spec fn piece(line: Seq<char>, i: int) -> Seq<char> {
    let pieces = split_at_most(line, ':', 4);
    if i < pieces.len() {
        pieces[i]
    } else {
        seq![]
    }
}

fn piece_or_empty(pieces: &Vec<String>, i: usize) -> (s: String)
    ensures
        s@ == if i < pieces@.len() {
            texts(pieces@)[i as int]
        } else {
            seq![]
        },
{
    if i < pieces.len() {
        pieces[i].clone()
    } else {
        String::new()
    }
}

/// Takes a line apart.
pub fn parse_line(line: &str) -> (r: ProgressLine)
    ensures
        r.kind == kind_of(trimmed(piece(line@, 0))),
        r.subject@ == trimmed(piece(line@, 1)),
        r.percent@ == trimmed(piece(line@, 2)),
        r.description@ == if r.kind is Raw {
            line@
        } else {
            piece(line@, 3)
        },
{
    let pieces = splitn(line, ':', 4);
    assert(texts(pieces@).len() == pieces@.len());
    let kind = line_kind(trim(piece_or_empty(&pieces, 0).as_str()).as_str());
    let subject = trim(piece_or_empty(&pieces, 1).as_str());
    let percent = trim(piece_or_empty(&pieces, 2).as_str());
    let description = match kind {
        LineKind::Raw => line.to_owned(),
        _ => piece_or_empty(&pieces, 3),
    };
    ProgressLine { kind, subject, percent, description }
}

/// The IEEE 754 single-precision bits of one hundred.
pub const HUNDRED: u32 = 0x42c8_0000;

/// The bits of positive infinity. Larger ones, the sign bit apart, are no number.
pub const INFINITY: u32 = 0x7f80_0000;

/// The bits of negative zero: the sign bit alone.
pub const SIGN: u32 = 0x8000_0000;

/// A percentage, given by the bits of its single-precision number, cut to what lies
/// between nought and a hundred. Of such numbers the larger has the larger bits. `None`
/// if it is no number.
pub open spec fn clamped(bits: u32) -> Option<u32> {
    if bits > INFINITY && bits < SIGN || bits > INFINITY + SIGN {
        None
    } else if bits >= SIGN {
        Some(0)
    } else if bits > HUNDRED {
        Some(HUNDRED)
    } else {
        Some(bits)
    }
}

/// How far an operation is, as the bits of a single-precision number: it never goes back.
pub struct ProgressMeter {
    overall: u32,
}

/// How far an operation is after a percentage was read, if one was.
pub open spec fn advanced(overall: u32, percent: Option<u32>) -> u32 {
    match percent {
        Some(bits) => match clamped(bits) {
            Some(p) => if p > overall {
                p
            } else {
                overall
            },
            None => overall,
        },
        None => overall,
    }
}

/// One report of progress.
pub struct DpkgProgress {
    pub status: &'static str,
    pub stage: &'static str,
    pub package_or_dpkg_exec: String,
    /// The overall percentage, as the bits of a single-precision number.
    pub percent: u32,
    pub description: String,
}

/// The name and the stage that a line is reported under.
pub open spec fn names_of(kind: LineKind) -> (Seq<char>, Seq<char>) {
    match kind {
        LineKind::Status => ("pmstatus"@, "dpkg"@),
        LineKind::Error => ("pmerror"@, "dpkg"@),
        LineKind::Conffile => ("pmconffile"@, "dpkg"@),
        LineKind::Download => ("dlstatus"@, "download"@),
        LineKind::Raw => ("dpkg_raw"@, "dpkg_raw"@),
    }
}

impl ProgressMeter {
    pub closed spec fn overall(self) -> u32 {
        self.overall
    }

    pub fn new() -> (m: Self)
        ensures
            m.overall() == 0,
    {
        ProgressMeter { overall: 0 }
    }

    fn advance(&mut self, percent: Option<u32>)
        ensures
            final(self).overall() == advanced(old(self).overall(), percent),
    {
        if let Some(bits) = percent {
            let p: u32 = if bits > INFINITY && bits < SIGN || bits > 0xff80_0000 {
                self.overall
            } else if bits >= SIGN {
                0
            } else if bits > HUNDRED {
                HUNDRED
            } else {
                bits
            };
            if p > self.overall {
                self.overall = p;
            }
        }
    }

    /// Reports a line. `percent` is what its percentage reads as, if it is a number; only
    /// progress moves the meter.
    pub fn report(&mut self, line: ProgressLine, percent: Option<u32>) -> (r: DpkgProgress)
        ensures
            final(self).overall() == if line.kind is Status {
                advanced(old(self).overall(), percent)
            } else {
                old(self).overall()
            },
            r.percent == final(self).overall(),
            (r.status@, r.stage@) == names_of(line.kind),
            r.package_or_dpkg_exec == line.subject,
            r.description == line.description,
    {
        let (status, stage) = match line.kind {
            LineKind::Status => {
                self.advance(percent);
                ("pmstatus", "dpkg")
            },
            LineKind::Error => ("pmerror", "dpkg"),
            LineKind::Conffile => ("pmconffile", "dpkg"),
            LineKind::Download => ("dlstatus", "download"),
            LineKind::Raw => ("dpkg_raw", "dpkg_raw"),
        };
        DpkgProgress {
            status,
            stage,
            package_or_dpkg_exec: line.subject,
            percent: self.overall,
            description: line.description,
        }
    }
}

/// The meter never goes back, and never beyond a hundred.
pub proof fn law_meter_only_advances(overall: u32, percent: Option<u32>)
    requires
        overall <= HUNDRED,
    ensures
        overall <= advanced(overall, percent) <= HUNDRED,
{
}

} // verus!
