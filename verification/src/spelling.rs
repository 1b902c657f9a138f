//! How paths are spelled, and that what is spelled is what is parsed.
//!
//! The encoder addresses the output by text: it spells the place of every
//! primitive and has the text parsed. The laws here say that this loses
//! nothing: the text that spells a sequence of steps is parsed as those
//! steps.

use crate::coerce::coerce_bool;
use crate::coerce::coerce_float;
use crate::coerce::coerce_integer;
use crate::coerce::coerce_string;
use crate::coerce::FloatPlan;
use crate::engine::found;
use crate::error::Failure;
use crate::float::FloatModel;
use crate::engine::lemma_placed_is_found;
use crate::error::PathFault;
use crate::integer::decimal_text;
use crate::integer::digit_char;
use crate::integer::digits_text;
use crate::parser::identifier_end;
use crate::parser::is_identifier_char;
use crate::parser::parse_path;
use crate::parser::parse_rest;
use crate::path::Step;
use crate::ser::full_key;
use crate::ser::written;
use crate::ser::Encoding;
use crate::ser::key_text;
use crate::text::digits_end;
use crate::text::digits_value;
use crate::text::is_digit;
use crate::value::Tree;
use vstd::prelude::*;

verus! {

/// How one step is spelled: a name after a `/`, an index in brackets.
pub open spec fn step_text(step: Step) -> Seq<char> {
    match step {
        Step::Identifier(name) => seq!['/'] + name,
        Step::Index(index) => seq!['['] + decimal_text(index) + seq![']'],
    }
}

/// How steps are spelled one after the other.
pub open spec fn spelled(steps: Seq<Step>) -> Seq<char>
    decreases steps.len(),
{
    if steps.len() == 0 {
        Seq::empty()
    } else {
        spelled(steps.drop_last()) + step_text(steps.last())
    }
}

/// How a path is spelled: `/` for the root, else its steps.
pub open spec fn path_text(steps: Seq<Step>) -> Seq<char> {
    if steps.len() == 0 {
        seq!['/']
    } else {
        spelled(steps)
    }
}

/// Whether a step can be spelled so that it is read back: a name is not
/// empty and holds identifier characters only, an index fits the index type.
pub open spec fn is_spellable(step: Step) -> bool {
    match step {
        Step::Identifier(name) => name.len() > 0 && forall|i: int|
            0 <= i < name.len() ==> is_identifier_char(#[trigger] name[i]),
        Step::Index(index) => isize::MIN <= index <= isize::MAX,
    }
}

/// Whether a path can be spelled so that it is read back: every step can,
/// and the first step, if there is one, is a name.
pub open spec fn is_spellable_path(steps: Seq<Step>) -> bool {
    &&& forall|i: int| 0 <= i < steps.len() ==> is_spellable(#[trigger] steps[i])
    &&& steps.len() > 0 ==> steps[0] is Identifier
}

/// The digits of a number are digits, at least one of them, and they spell
/// the number.
pub proof fn lemma_digits_text(n: nat)
    ensures
        digits_text(n).len() > 0,
        forall|i: int| 0 <= i < digits_text(n).len() ==> is_digit(#[trigger] digits_text(n)[i]),
        digits_value(digits_text(n)) == n,
    decreases n,
{
    if n < 10 {
        assert(digits_text(n) =~= seq![digit_char(n as int)]);
        assert(digits_text(n).drop_last() =~= Seq::<char>::empty());
        assert(digits_value(digits_text(n).drop_last()) == 0);
    } else {
        lemma_digits_text(n / 10);
        let front = digits_text(n / 10);
        assert(digits_text(n) == front.push(digit_char((n % 10) as int)));
        assert(digits_text(n).drop_last() =~= front);
        assert forall|i: int| 0 <= i < digits_text(n).len() implies is_digit(
            #[trigger] digits_text(n)[i],
        ) by {
            if i < front.len() {
                assert(digits_text(n)[i] == front[i]);
            }
        }
    }
}

/// A run of identifier characters that is followed by something else, or by
/// nothing, ends where it ends.
proof fn lemma_identifier_run(text: Seq<char>, from: int, to: int)
    requires
        0 <= from <= to <= text.len(),
        forall|i: int| from <= i < to ==> is_identifier_char(text[i]),
        to < text.len() ==> !is_identifier_char(text[to]),
    ensures
        identifier_end(text, from) == to,
    decreases to - from,
{
    if from < to {
        lemma_identifier_run(text, from + 1, to);
    }
}

/// A run of digits that is followed by something else, or by nothing, ends
/// where it ends.
proof fn lemma_digits_run(text: Seq<char>, from: int, to: int)
    requires
        0 <= from <= to <= text.len(),
        forall|i: int| from <= i < to ==> is_digit(text[i]),
        to < text.len() ==> !is_digit(text[to]),
    ensures
        digits_end(text, from) == to,
    decreases to - from,
{
    if from < to {
        lemma_digits_run(text, from + 1, to);
    }
}

/// Where a text holds the spelling of a step, followed by the start of
/// another step or by nothing, reading at that place reads the step.
proof fn lemma_step_is_read(text: Seq<char>, at: int, step: Step, steps: Seq<Step>)
    requires
        is_spellable(step),
        0 <= at,
        at + step_text(step).len() <= text.len(),
        text.subrange(at, at + step_text(step).len()) == step_text(step),
        at + step_text(step).len() < text.len() ==> text[at + step_text(step).len()] == '/'
            || text[at + step_text(step).len()] == '[',
    ensures
        parse_rest(text, at, steps) == parse_rest(
            text,
            at + step_text(step).len(),
            steps.push(step),
        ),
{
    let spelling = step_text(step);
    let end = at + spelling.len();
    assert forall|i: int| at <= i < end implies text[i] == spelling[i - at] by {
        assert(text.subrange(at, end)[i - at] == text[i]);
    }
    match step {
        Step::Identifier(name) => {
            assert(spelling[0] == '/');
            assert(text[at] == '/');
            assert forall|i: int| at + 1 <= i < end implies is_identifier_char(text[i]) by {
                assert(spelling[i - at] == name[i - at - 1]);
            }
            lemma_identifier_run(text, at + 1, end);
            assert(text.subrange(at + 1, end) =~= name);
        },
        Step::Index(index) => {
            let magnitude: nat = if index < 0 {
                (-index) as nat
            } else {
                index as nat
            };
            lemma_digits_text(magnitude);
            let digits = digits_text(magnitude);
            assert(spelling[0] == '[');
            assert(text[at] == '[');
            let start = if index < 0 {
                at + 2
            } else {
                at + 1
            };
            if index < 0 {
                assert(decimal_text(index) == seq!['-'] + digits);
                assert(spelling[1] == '-');
                assert(text[at + 1] == '-');
            } else {
                assert(decimal_text(index) == digits);
                assert(spelling[1] == digits[0]);
                assert(is_digit(digits[0]));
                assert(text[at + 1] != '-');
            }
            assert(end - 1 == start + digits.len());
            assert forall|i: int| start <= i < end - 1 implies is_digit(text[i]) by {
                assert(spelling[i - at] == digits[i - start]);
            }
            assert(spelling[spelling.len() - 1] == ']');
            assert(text[end - 1] == ']');
            lemma_digits_run(text, start, end - 1);
            assert(text.subrange(start, end - 1) =~= digits);
        },
    }
}

/// Reading a text that begins with the spelling of steps, followed by the
/// start of another step or by nothing, reads those steps first.
proof fn lemma_steps_are_read(text: Seq<char>, steps: Seq<Step>, before: Seq<Step>)
    requires
        forall|i: int| 0 <= i < steps.len() ==> is_spellable(#[trigger] steps[i]),
        spelled(steps).len() <= text.len(),
        text.subrange(0, spelled(steps).len() as int) == spelled(steps),
        spelled(steps).len() < text.len() ==> text[spelled(steps).len() as int] == '/'
            || text[spelled(steps).len() as int] == '[',
    ensures
        parse_rest(text, 0, before) == parse_rest(
            text,
            spelled(steps).len() as int,
            before + steps,
        ),
    decreases steps.len(),
{
    if steps.len() == 0 {
        assert(before + steps =~= before);
    } else {
        let front = steps.drop_last();
        let last = steps.last();
        let at = spelled(front).len() as int;
        let end = spelled(steps).len() as int;
        assert(spelled(steps) == spelled(front) + step_text(last));
        assert(is_spellable(last));
        assert(step_text(last).len() > 0);
        assert(text.subrange(0, at) =~= spelled(front)) by {
            assert(text.subrange(0, end).subrange(0, at) =~= text.subrange(0, at));
        }
        assert(text.subrange(at, end) =~= step_text(last)) by {
            assert(text.subrange(0, end).subrange(at, end) =~= text.subrange(at, end));
        }
        assert(text[at] == step_text(last)[0]);
        assert forall|i: int| 0 <= i < front.len() implies is_spellable(#[trigger] front[i]) by {
            assert(front[i] == steps[i]);
        }
        lemma_steps_are_read(text, front, before);
        lemma_step_is_read(text, at, last, before + front);
        assert((before + front).push(last) =~= before + steps);
    }
}

/// The text that spells a path is parsed as that path.
pub proof fn lemma_spelled_is_parsed(steps: Seq<Step>)
    requires
        is_spellable_path(steps),
    ensures
        parse_path(path_text(steps)) == Ok::<Seq<Step>, PathFault>(steps),
{
    if steps.len() > 0 {
        let text = spelled(steps);
        lemma_first_is_slash(steps);
        lemma_spelled_len(steps);
        assert(text.subrange(0, text.len() as int) =~= text);
        lemma_steps_are_read(text, steps, Seq::empty());
        assert(Seq::<Step>::empty() + steps =~= steps);
        assert(parse_path(text) == parse_rest(text, 0, Seq::empty()));
        assert(parse_rest(text, text.len() as int, steps) == Ok::<Seq<Step>, PathFault>(steps));
    } else {
        assert(steps =~= Seq::<Step>::empty());
        assert(path_text(steps).len() == 1);
    }
}

/// The spelling of steps that begin with a name begins with a `/`.
proof fn lemma_first_is_slash(steps: Seq<Step>)
    requires
        steps.len() > 0,
        steps[0] is Identifier,
    ensures
        spelled(steps).len() > 0,
        spelled(steps)[0] == '/',
    decreases steps.len(),
{
    if steps.len() == 1 {
        assert(steps.drop_last() =~= Seq::<Step>::empty());
        assert(spelled(steps.drop_last()) =~= Seq::<char>::empty());
        assert(spelled(steps) =~= step_text(steps[0]));
    } else {
        assert(steps.drop_last()[0] == steps[0]);
        lemma_first_is_slash(steps.drop_last());
    }
}

/// The spelling of steps that can be spelled has at least two characters for
/// every step.
proof fn lemma_spelled_len(steps: Seq<Step>)
    requires
        forall|i: int| 0 <= i < steps.len() ==> is_spellable(#[trigger] steps[i]),
    ensures
        spelled(steps).len() >= 2 * steps.len(),
    decreases steps.len(),
{
    if steps.len() > 0 {
        let front = steps.drop_last();
        assert forall|i: int| 0 <= i < front.len() implies is_spellable(#[trigger] front[i]) by {
            assert(front[i] == steps[i]);
        }
        lemma_spelled_len(front);
        assert(is_spellable(steps.last()));
        match steps.last() {
            Step::Identifier(name) => {},
            Step::Index(index) => {
                lemma_digits_text(
                    if index < 0 {
                        (-index) as nat
                    } else {
                        index as nat
                    },
                );
            },
        }
    }
}

/// The key under which the encoder enters a name spells one more step: where
/// the innermost key spells some steps, the new key spells those steps and
/// then the name; with no key entered it spells the name alone.
pub proof fn lemma_full_key_spells(
    keys: Seq<(Seq<char>, Option<usize>)>,
    steps: Seq<Step>,
    name: Seq<char>,
)
    requires
        keys.len() > 0 ==> key_text(keys.last()) == spelled(steps),
        keys.len() == 0 ==> steps.len() == 0,
    ensures
        full_key(keys, name) == spelled(steps.push(Step::Identifier(name))),
{
    reveal_strlit("/");
    assert("/"@ =~= seq!['/']);
    assert(steps.push(Step::Identifier(name)).drop_last() =~= steps);
    if keys.len() == 0 {
        assert(spelled(steps) =~= Seq::<char>::empty());
        assert(full_key(keys, name) =~= spelled(steps.push(Step::Identifier(name))));
    } else {
        assert(full_key(keys, name) =~= spelled(steps.push(Step::Identifier(name))));
    }
}

/// A key with a running index spells one more step: where the key itself
/// spells some steps, the key with its index spells those steps and then the
/// index.
pub proof fn lemma_indexed_key_spells(key: Seq<char>, index: usize, steps: Seq<Step>)
    requires
        key == spelled(steps),
    ensures
        key_text((key, Some(index))) == spelled(steps.push(Step::Index(index as int))),
{
    reveal_strlit("[");
    reveal_strlit("]");
    assert("["@ =~= seq!['[']);
    assert("]"@ =~= seq![']']);
    assert(steps.push(Step::Index(index as int)).drop_last() =~= steps);
    assert(key_text((key, Some(index))) =~= spelled(steps.push(Step::Index(index as int))));
}

/// What the encoder writes is found where its key says: where the innermost
/// key spells a path, writing a value succeeds, leaves the keys as they
/// were, and the output then holds the value at that path.
pub proof fn lemma_written_is_found(enc: Encoding, steps: Seq<Step>, value: Tree)
    requires
        enc.keys.len() > 0,
        steps.len() > 0,
        is_spellable_path(steps),
        key_text(enc.keys.last()) == spelled(steps),
    ensures
        written(enc, value) is Ok,
        written(enc, value)->Ok_0.keys == enc.keys,
        found(written(enc, value)->Ok_0.output, steps) == Some(value),
{
    lemma_spelled_is_parsed(steps);
    lemma_placed_is_found(enc.output, steps, value);
}

/// What encoding a bare value yields: the output of an encoding that has
/// not begun, after the value has been written.
pub open spec fn encoded(value: Tree) -> Result<Tree, Failure> {
    match written(Encoding { keys: Seq::empty(), output: Tree::Nil }, value) {
        Ok(done) => Ok(done.output),
        Err(failure) => Err(failure),
    }
}

/// A bare value is encoded as itself, whatever the output held before.
pub proof fn lemma_written_at_the_root(enc: Encoding, value: Tree)
    requires
        enc.keys.len() == 0,
    ensures
        written(enc, value) == Ok::<Encoding, Failure>(Encoding { keys: enc.keys, output: value }),
        encoded(value) == Ok::<Tree, Failure>(value),
{
}

/// A boolean that is encoded is decoded as the same boolean.
pub proof fn lemma_encoded_bool_is_decoded(b: bool)
    ensures
        encoded(Tree::Boolean(b)) is Ok,
        coerce_bool(encoded(Tree::Boolean(b))->Ok_0) == Ok::<bool, Failure>(b),
{
}

/// An integer that is encoded is decoded as the same integer by every width
/// that has room for it: every signed and every unsigned integer of up to 64
/// bits by its own width.
pub proof fn lemma_encoded_integer_is_decoded(n: int, min: int, max: int)
    requires
        min <= n <= max,
    ensures
        encoded(Tree::Integer(n)) is Ok,
        coerce_integer(encoded(Tree::Integer(n))->Ok_0, min, max) == Ok::<int, Failure>(n),
{
}

/// A string that is encoded is decoded as the same string.
pub proof fn lemma_encoded_string_is_decoded(s: Seq<char>)
    ensures
        encoded(Tree::String(s)) is Ok,
        coerce_string(encoded(Tree::String(s))->Ok_0) == Ok::<Seq<char>, Failure>(s),
{
}

/// A float that is encoded is decoded as the float with the same bits.
pub proof fn lemma_encoded_float_is_decoded(f: FloatModel)
    ensures
        encoded(Tree::Float(f)) is Ok,
        coerce_float(encoded(Tree::Float(f))->Ok_0) == Ok::<FloatPlan, Failure>(
            FloatPlan::Bits(f.bits),
        ),
{
}

} // verus!
