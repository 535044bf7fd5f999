//! Expressions on versions.
use oma_tum::parser::{parse_version_expr, VersionToken};
use vstd::prelude::*;

verus! {

/// A piece of an expression on versions.
#[derive(Clone, Copy, PartialEq, Eq, Structural)]
pub enum Piece {
    Eq,
    EqEq,
    NotEq,
    GtEq,
    LtEq,
    Gt,
    Lt,
    Or,
    And,
    LParen,
    RParen,
    Hexadecimal,
    VersionNumber,
}

impl Piece {
    pub open spec fn compares(self) -> bool {
        match self {
            Piece::Eq | Piece::EqEq | Piece::NotEq | Piece::GtEq | Piece::LtEq | Piece::Gt
            | Piece::Lt => true,
            _ => false,
        }
    }

    pub open spec fn connects(self) -> bool {
        self == Piece::Or || self == Piece::And
    }

    fn is_comparison(&self) -> (r: bool)
        ensures
            r == self.compares(),
    {
        match self {
            Piece::Eq | Piece::EqEq | Piece::NotEq | Piece::GtEq | Piece::LtEq | Piece::Gt
            | Piece::Lt => true,
            _ => false,
        }
    }

    fn is_connective(&self) -> (r: bool)
        ensures
            r == self.connects(),
    {
        match self {
            Piece::Or | Piece::And => true,
            _ => false,
        }
    }
}

/// The pieces of an expression on versions, as `oma_tum::parser::parse_version_expr` puts
/// them in order: operands before their operator. `None` if it refuses the expression.
pub uninterp spec fn version_pieces(expression: Seq<char>) -> Option<Seq<Piece>>;

/// `oma_tum::parser::parse_version_expr`: a function of the expression alone. Each token is
/// handed on as a piece of the same kind.
#[verifier::external_body]
fn parse_version(expression: &str) -> (r: Option<Vec<Piece>>)
    ensures
        match r {
            Some(pieces) => version_pieces(expression@) == Some(pieces@),
            None => version_pieces(expression@) is None,
        },
{
    let tokens = parse_version_expr(expression).ok()?;
    Some(tokens.into_iter().map(|token| match token {
        VersionToken::Eq => Piece::Eq, VersionToken::EqEq => Piece::EqEq,
        VersionToken::NotEq => Piece::NotEq, VersionToken::GtEq => Piece::GtEq,
        VersionToken::LtEq => Piece::LtEq, VersionToken::Gt => Piece::Gt,
        VersionToken::Lt => Piece::Lt, VersionToken::Or => Piece::Or,
        VersionToken::And => Piece::And, VersionToken::LParen => Piece::LParen,
        VersionToken::RParen => Piece::RParen,
        VersionToken::Hexadecimal(_) => Piece::Hexadecimal,
        VersionToken::VersionNumber(_) => Piece::VersionNumber,
    }).collect())
}

/// From the piece at `i` on, with `depth` answers at hand, the expression can be worked off:
/// two numbers and a comparison give an answer, a connective makes one answer of two, and
/// one answer is left.
pub open spec fn settles(pieces: Seq<Piece>, i: int, depth: nat) -> bool
    decreases pieces.len() - i,
{
    if i >= pieces.len() {
        depth == 1
    } else if pieces[i] == Piece::VersionNumber {
        &&& i + 2 < pieces.len()
        &&& pieces[i + 1] == Piece::VersionNumber
        &&& pieces[i + 2].compares()
        &&& settles(pieces, i + 3, depth + 1)
    } else {
        pieces[i].connects() && depth >= 2 && settles(pieces, i + 1, (depth - 1) as nat)
    }
}

/// The expression on versions is refused, or it can be worked off.
pub open spec fn expression_is_tame(expression: Seq<char>) -> bool {
    match version_pieces(expression) {
        Some(pieces) => settles(pieces, 0, 0),
        None => true,
    }
}

fn is_settling(pieces: &Vec<Piece>) -> (r: bool)
    ensures
        r <==> settles(pieces@, 0, 0),
{
    let mut i: usize = 0;
    let mut depth: usize = 0;
    while i < pieces.len()
        invariant
            depth <= i <= pieces.len(),
            settles(pieces@, 0, 0) <==> settles(pieces@, i as int, depth as nat),
        decreases pieces.len() - i,
    {
        if pieces[i] == Piece::VersionNumber {
            if pieces.len() - i <= 2 || pieces[i + 1] != Piece::VersionNumber
                || !pieces[i + 2].is_comparison() {
                return false;
            }
            i = i + 3;
            depth = depth + 1;
        } else {
            if !pieces[i].is_connective() || depth < 2 {
                return false;
            }
            i = i + 1;
            depth = depth - 1;
        }
    }
    depth == 1
}

pub(crate) fn is_expression_tame(expression: &str) -> (r: bool)
    ensures
        r <==> expression_is_tame(expression@),
{
    match parse_version(expression) {
        Some(pieces) => is_settling(&pieces),
        None => true,
    }
}

/// Whether `oma_tum` takes a version for the one that an entry wants. `None` if it cannot
/// read one of them.
pub uninterp spec fn is_version(version: Seq<char>, wanted: Seq<char>) -> Option<bool>;

/// Whether `oma_tum` finds that an expression holds of a version. `None` if it cannot read the
/// version, or one in the expression.
pub uninterp spec fn holds_of(expression: Seq<char>, version: Seq<char>) -> Option<bool>;

} // verus!
