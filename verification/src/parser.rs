//! The path language and its parser.
//!
//! A path is written from the root: `/` alone is the empty path, and every
//! other path is one or more segments, each a `/`, an identifier of letters,
//! digits, `_` and `-`, and any number of indices in brackets, such as
//! `/a[0]/b/c[-1]`. An index is a decimal number with an optional minus sign
//! that fits the index type. Any other text is refused, with the place and
//! the reason.

use crate::error::Error;
use crate::error::Failure;
use crate::error::PathFault;
use crate::error::PathFaultKind;
use crate::path::steps_of;
use crate::path::Path;
use crate::path::PathNode;
use crate::path::Step;
use crate::text::characters;
use crate::text::digits_end;
use crate::text::digits_value;
use crate::text::read_digits;
use crate::text::text_of;
use vstd::prelude::*;

verus! {

/// Whether a character may stand in an identifier.
pub open spec fn is_identifier_char(c: char) -> bool {
    ('a' <= c && c <= 'z') || ('A' <= c && c <= 'Z') || ('0' <= c && c <= '9') || c == '_' || c
        == '-'
}

/// Where the run of identifier characters that starts at `from` ends.
pub open spec fn identifier_end(text: Seq<char>, from: int) -> int
    decreases text.len() - from,
{
    if 0 <= from < text.len() && is_identifier_char(text[from]) {
        identifier_end(text, from + 1)
    } else {
        from
    }
}

/// A fault at a place.
pub open spec fn fault(position: int, kind: PathFaultKind) -> PathFault {
    PathFault { position: position as usize, kind }
}

/// A run ends at or after its start, and within the text where it starts
/// there.
pub proof fn lemma_identifier_end(text: Seq<char>, from: int)
    requires
        0 <= from <= text.len(),
    ensures
        from <= identifier_end(text, from) <= text.len(),
        forall|i: int| from <= i < identifier_end(text, from) ==> is_identifier_char(text[i]),
        identifier_end(text, from) < text.len() ==> !is_identifier_char(
            text[identifier_end(text, from)],
        ),
    decreases text.len() - from,
{
    if from < text.len() && is_identifier_char(text[from]) {
        lemma_identifier_end(text, from + 1);
    }
}

/// The steps that the text spells from `at` on, after the steps read so far;
/// or the first fault. At `at` stands the `/` of a segment, the `[` of an
/// index, or the end of the text.
pub open spec fn parse_rest(text: Seq<char>, at: int, steps: Seq<Step>) -> Result<
    Seq<Step>,
    PathFault,
>
    decreases text.len() - at,
{
    if at < 0 || at >= text.len() {
        Ok(steps)
    } else if text[at] == '/' {
        let end = identifier_end(text, at + 1);
        if end <= at + 1 {
            Err(fault(at + 1, PathFaultKind::NoIdentifier))
        } else {
            proof {
                lemma_identifier_end(text, at + 1);
            }
            parse_rest(text, end, steps.push(Step::Identifier(text.subrange(at + 1, end))))
        }
    } else if text[at] == '[' {
        let negative = at + 1 < text.len() && text[at + 1] == '-';
        let start = if negative {
            at + 2
        } else {
            at + 1
        };
        let end = digits_end(text, start);
        let magnitude = digits_value(text.subrange(start, end));
        let index = if negative {
            -magnitude
        } else {
            magnitude as int
        };
        if end <= start {
            Err(fault(start, PathFaultKind::NoIndex))
        } else if index < isize::MIN || index > isize::MAX {
            Err(fault(start, PathFaultKind::IndexTooLarge))
        } else if end >= text.len() || text[end] != ']' {
            Err(fault(end, PathFaultKind::NoClosingBracket))
        } else {
            parse_rest(text, end + 1, steps.push(Step::Index(index)))
        }
    } else {
        Err(fault(at, PathFaultKind::Stray))
    }
}

/// The path that a text spells, or the first fault in it.
pub open spec fn parse_path(text: Seq<char>) -> Result<Seq<Step>, PathFault> {
    if text.len() == 0 {
        Err(fault(0, PathFaultKind::Empty))
    } else if text[0] != '/' {
        Err(fault(0, PathFaultKind::NoRoot))
    } else if text.len() == 1 {
        Ok(Seq::empty())
    } else {
        parse_rest(text, 0, Seq::empty())
    }
}

/// Whether a character may stand in an identifier.
fn identifier_char(c: char) -> (r: bool)
    ensures
        r == is_identifier_char(c),
{
    ('a' <= c && c <= 'z') || ('A' <= c && c <= 'Z') || ('0' <= c && c <= '9') || c == '_' || c
        == '-'
}

/// Finds the end of the run of identifier characters that starts at `from`.
fn scan_identifier(chars: &Vec<char>, from: usize) -> (end: usize)
    requires
        from <= chars.len(),
    ensures
        end == identifier_end(chars@, from as int),
        from <= end <= chars.len(),
{
    let mut end: usize = from;
    while end < chars.len() && identifier_char(chars[end])
        invariant
            from <= end <= chars.len(),
            identifier_end(chars@, from as int) == identifier_end(chars@, end as int),
        decreases chars.len() - end,
    {
        end += 1;
    }
    end
}

/// Reads the run of digits that starts at `start`: where it ends, and the
/// index that it spells with the given sign, unless that does not fit.
fn read_index(chars: &Vec<char>, start: usize, negative: bool) -> (r: (usize, Option<isize>))
    requires
        start <= chars.len(),
    ensures
        r.0 == digits_end(chars@, start as int),
        start <= r.0 <= chars.len(),
        ({
            let magnitude = digits_value(chars@.subrange(start as int, r.0 as int));
            let index = if negative {
                -magnitude
            } else {
                magnitude as int
            };
            match r.1 {
                Some(i) => i == index,
                None => index < isize::MIN || index > isize::MAX,
            }
        }),
{
    let limit: u64 = if negative {
        (isize::MAX as u64) + 1
    } else {
        isize::MAX as u64
    };
    let (end, total) = read_digits(chars, start, limit);
    let value = match total {
        None => None,
        Some(magnitude) => if negative {
            if magnitude == limit {
                Some(isize::MIN)
            } else {
                Some(-(magnitude as isize))
            }
        } else {
            Some(magnitude as isize)
        },
    };
    (end, value)
}

/// Reads the steps that the characters spell.
fn parse_steps(chars: &Vec<char>) -> (r: Result<Vec<PathNode>, PathFault>)
    ensures
        match r {
            Ok(nodes) => parse_path(chars@) == Ok::<Seq<Step>, PathFault>(steps_of(nodes@)),
            Err(f) => parse_path(chars@) == Err::<Seq<Step>, PathFault>(f),
        },
{
    let len = chars.len();
    let mut nodes: Vec<PathNode> = Vec::new();
    if len == 0 {
        return Err(PathFault { position: 0, kind: PathFaultKind::Empty });
    }
    if chars[0] != '/' {
        return Err(PathFault { position: 0, kind: PathFaultKind::NoRoot });
    }
    proof {
        assert(steps_of(nodes@) =~= Seq::<Step>::empty());
    }
    if len == 1 {
        return Ok(nodes);
    }
    let mut at: usize = 0;
    while at < len
        invariant
            len == chars.len(),
            at <= len,
            parse_path(chars@) == parse_rest(chars@, at as int, steps_of(nodes@)),
        decreases len - at,
    {
        let c = chars[at];
        let ghost steps = steps_of(nodes@);
        if c == '/' {
            let end = scan_identifier(chars, at + 1);
            if end == at + 1 {
                return Err(PathFault { position: at + 1, kind: PathFaultKind::NoIdentifier });
            }
            let name = text_of(chars, at + 1, end);
            nodes.push(PathNode::Identifier(name));
            proof {
                assert(steps_of(nodes@) =~= steps.push(
                    Step::Identifier(chars@.subrange(at + 1, end as int)),
                ));
            }
            at = end;
        } else if c == '[' {
            let negative = at + 1 < len && chars[at + 1] == '-';
            let start = if negative {
                at + 2
            } else {
                at + 1
            };
            let (end, value) = read_index(chars, start, negative);
            if end == start {
                return Err(PathFault { position: start, kind: PathFaultKind::NoIndex });
            }
            match value {
                None => {
                    return Err(PathFault { position: start, kind: PathFaultKind::IndexTooLarge });
                },
                Some(index) => {
                    if end >= len || chars[end] != ']' {
                        return Err(
                            PathFault { position: end, kind: PathFaultKind::NoClosingBracket },
                        );
                    }
                    nodes.push(PathNode::Index(index));
                    proof {
                        assert(steps_of(nodes@) =~= steps.push(Step::Index(index as int)));
                    }
                    at = end + 1;
                },
            }
        } else {
            return Err(PathFault { position: at, kind: PathFaultKind::Stray });
        }
    }
    Ok(nodes)
}

/// The parser of the path language.
pub struct PathParser;

impl PathParser {
    /// Parses a text as a path: the path that the text spells, or a
    /// path-parse error with the text and the first fault in it.
    pub fn parse_to_path(s: &str) -> (r: Result<Path, Error>)
        ensures
            match r {
                Ok(path) => parse_path(s@) == Ok::<Seq<Step>, PathFault>(path@),
                Err(e) => parse_path(s@) is Err && e@ == (Failure::PathParse {
                    path: s@,
                    fault: parse_path(s@)->Err_0,
                }),
            },
    {
        let chars = characters(s);
        match parse_steps(&chars) {
            Ok(nodes) => Ok(Path(nodes)),
            Err(fault) => Err(Error::path_parse(fault, s)),
        }
    }
}

/// What parsing a text as a path yields: the steps that it spells, or the
/// path-parse error with the text and the first fault in it.
pub open spec fn parsed(text: Seq<char>) -> Result<Seq<Step>, Failure> {
    match parse_path(text) {
        Ok(steps) => Ok(steps),
        Err(fault) => Err(Failure::PathParse { path: text, fault }),
    }
}

/// A type that can be made into a path.
pub trait IntoPath: Sized {
    /// The steps of the path that this is made into, or why it is none.
    spec fn steps(self) -> Result<Seq<Step>, Failure>;

    /// Makes this into a path.
    fn into_path(self) -> (r: Result<Path, Error>)
        ensures
            match r {
                Ok(path) => self.steps() == Ok::<Seq<Step>, Failure>(path@),
                Err(e) => self.steps() == Err::<Seq<Step>, Failure>(e@),
            },
    ;
}

impl IntoPath for Path {
    open spec fn steps(self) -> Result<Seq<Step>, Failure> {
        Ok(self@)
    }

    fn into_path(self) -> (r: Result<Path, Error>) {
        Ok(self)
    }
}

impl<'a> IntoPath for &'a str {
    open spec fn steps(self) -> Result<Seq<Step>, Failure> {
        parsed(self@)
    }

    fn into_path(self) -> (r: Result<Path, Error>) {
        PathParser::parse_to_path(self)
    }
}

impl IntoPath for String {
    open spec fn steps(self) -> Result<Seq<Step>, Failure> {
        parsed(self@)
    }

    fn into_path(self) -> (r: Result<Path, Error>) {
        PathParser::parse_to_path(self.as_str())
    }
}

impl core::str::FromStr for Path {
    type Err = Error;

    /// Parses a text as a path: the path that the text spells, or a
    /// path-parse error with the text and the first fault in it.
    fn from_str(s: &str) -> (r: Result<Path, Error>)
        ensures
            match r {
                Ok(path) => parsed(s@) == Ok::<Seq<Step>, Failure>(path@),
                Err(e) => parsed(s@) == Err::<Seq<Step>, Failure>(e@),
            },
    {
        PathParser::parse_to_path(s)
    }
}

} // verus!
