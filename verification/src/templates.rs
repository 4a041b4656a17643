//! What some short templates produce, for every argument.

use crate::formatter::{decimal, digits_end};
use crate::machine::{
    eval, fresh_frame, initial, lemma_root_ends, lemma_text_is_copied, literal_value, offset, run,
    step, text_length, wrap, Branch, Frame, Machine, Outcome,
};
use crate::param_string::{EvalError, Value};
use vstd::prelude::*;

verus! {

/// `%p1%d` produces the decimal form of the first argument.
pub proof fn lemma_decimal_of_argument(args: Seq<Value>)
    requires
        args.len() >= 1,
    ensures
        eval(seq!['%', 'p', '1', '%', 'd'], args) == Ok::<Seq<char>, EvalError>(
            decimal(args[0].as_int() as int),
        ),
{
    let t = seq!['%', 'p', '1', '%', 'd'];
    let m0 = initial();
    let m1 = m0.push(args[0]).at(3);
    let m2 = m1.pop().emit(decimal(args[0].as_int() as int)).at(5);
    assert(offset(t[2], '1') == 0);
    assert(m0.coherent(t));
    assert(step(t, args, m0) == Outcome::Next(m1));
    assert(m1.coherent(t));
    assert(step(t, args, m1) == Outcome::Next(m2));
    assert(m2.coherent(t));
    assert(m2.active().output =~= decimal(args[0].as_int() as int));
    lemma_root_ends(t, args, m2);
    assert(run(t, args, m1) == run(t, args, m2));
    assert(run(t, args, m0) == run(t, args, m1));
}

/// `%p1%p2%+%d` produces the decimal form of the sum of the first two
/// arguments, the first one being the left operand.
pub proof fn lemma_sum_of_arguments(args: Seq<Value>)
    requires
        args.len() >= 2,
    ensures
        eval(seq!['%', 'p', '1', '%', 'p', '2', '%', '+', '%', 'd'], args) == Ok::<
            Seq<char>,
            EvalError,
        >(decimal(wrap(args[0].as_int() + args[1].as_int()) as int)),
{
    let t = seq!['%', 'p', '1', '%', 'p', '2', '%', '+', '%', 'd'];
    let sum = Value::Number(wrap(args[0].as_int() + args[1].as_int()));
    let m0 = initial();
    let m1 = m0.push(args[0]).at(3);
    let m2 = m1.push(args[1]).at(6);
    let m3 = m2.pop().pop().push(sum).at(8);
    let m4 = m3.pop().emit(decimal(sum.as_int() as int)).at(10);
    assert(offset(t[2], '1') == 0 && offset(t[5], '1') == 1);
    assert(m0.coherent(t));
    assert(step(t, args, m0) == Outcome::Next(m1));
    assert(m1.coherent(t));
    assert(step(t, args, m1) == Outcome::Next(m2));
    assert(m2.coherent(t));
    assert(m2.pop().top() == args[0] && m2.top() == args[1]);
    assert(step(t, args, m2) == Outcome::Next(m3));
    assert(m3.coherent(t));
    assert(step(t, args, m3) == Outcome::Next(m4));
    assert(m4.coherent(t));
    assert(m4.active().output =~= decimal(sum.as_int() as int));
    lemma_root_ends(t, args, m4);
    assert(run(t, args, m3) == run(t, args, m4));
    assert(run(t, args, m2) == run(t, args, m3));
    assert(run(t, args, m1) == run(t, args, m2));
    assert(run(t, args, m0) == run(t, args, m1));
}

/// `%p1%l%d` produces the decimal form of the length of the first argument's
/// text.
pub proof fn lemma_length_of_argument(args: Seq<Value>)
    requires
        args.len() >= 1,
    ensures
        eval(seq!['%', 'p', '1', '%', 'l', '%', 'd'], args) == Ok::<Seq<char>, EvalError>(
            decimal(text_length(args[0].as_str()) as int),
        ),
{
    let t = seq!['%', 'p', '1', '%', 'l', '%', 'd'];
    let length = Value::Number(text_length(args[0].as_str()));
    let m0 = initial();
    let m1 = m0.push(args[0]).at(3);
    let m2 = m1.pop().push(length).at(5);
    let m3 = m2.pop().emit(decimal(length.as_int() as int)).at(7);
    assert(offset(t[2], '1') == 0);
    assert(m0.coherent(t));
    assert(step(t, args, m0) == Outcome::Next(m1));
    assert(m1.coherent(t));
    assert(step(t, args, m1) == Outcome::Next(m2));
    assert(m2.coherent(t));
    assert(step(t, args, m2) == Outcome::Next(m3));
    assert(m3.coherent(t));
    assert(m3.active().output =~= decimal(length.as_int() as int));
    lemma_root_ends(t, args, m3);
    assert(run(t, args, m2) == run(t, args, m3));
    assert(run(t, args, m1) == run(t, args, m2));
    assert(run(t, args, m0) == run(t, args, m1));
}

/// `%{65}%c` produces the character with the code 65, the letter `A`.
pub proof fn lemma_literal_as_character(args: Seq<Value>)
    ensures
        eval(seq!['%', '{', '6', '5', '}', '%', 'c'], args) == Ok::<Seq<char>, EvalError>(
            seq!['A'],
        ),
{
    let t = seq!['%', '{', '6', '5', '}', '%', 'c'];
    let m0 = initial();
    let m1 = m0.push(Value::Number(65)).at(5);
    let m2 = m1.pop().emit(seq!['A']).at(7);
    assert(m0.coherent(t));
    assert(digits_end(t, 2, 7) == 4) by {
        reveal_with_fuel(digits_end, 4);
    }
    assert(literal_value(t, 2, 4) == 65) by {
        reveal_with_fuel(literal_value, 4);
        assert(offset(t[2], '0') == 6 && offset(t[3], '0') == 5);
    }
    assert(wrap(65) == 65);
    assert(step(t, args, m0) == Outcome::Next(m1));
    assert(m1.coherent(t));
    assert(Value::Number(65).as_char() == 'A');
    assert(step(t, args, m1) == Outcome::Next(m2));
    assert(m2.coherent(t));
    assert(m2.active().output =~= seq!['A']);
    lemma_root_ends(t, args, m2);
    assert(run(t, args, m1) == run(t, args, m2));
    assert(run(t, args, m0) == run(t, args, m1));
}

/// `%p` without a digit behind it is invalid at the place of the digit.
pub proof fn lemma_parameter_without_digit(args: Seq<Value>)
    ensures
        eval(seq!['%', 'p'], args) == Err::<Seq<char>, EvalError>(EvalError::Invalid(2)),
{
    let t = seq!['%', 'p'];
    assert(initial().coherent(t));
    assert(step(t, args, initial()) == Outcome::Done(
        Err::<Seq<char>, EvalError>(EvalError::Invalid(2)),
    ));
}

/// The template of a conditional with two branches of plain text: `%?`, the
/// first argument as the condition, `%t`, one text, `%e`, the other text,
/// and `%;`.
pub open spec fn two_way(then_text: Seq<char>, else_text: Seq<char>) -> Seq<char> {
    seq!['%', '?', '%', 'p', '1', '%', 't'] + then_text + seq!['%', 'e'] + else_text + seq![
        '%',
        ';',
    ]
}

/// A conditional with two branches of plain text produces the first text
/// where its condition holds, and the second one where it does not.
pub proof fn lemma_two_way(then_text: Seq<char>, else_text: Seq<char>, args: Seq<Value>)
    requires
        args.len() >= 1,
        forall|i: int| 0 <= i < then_text.len() ==> then_text[i] != '%',
        forall|i: int| 0 <= i < else_text.len() ==> else_text[i] != '%',
    ensures
        eval(two_way(then_text, else_text), args) == Ok::<Seq<char>, EvalError>(
            if args[0].as_bool() {
                then_text
            } else {
                else_text
            },
        ),
{
    let t = two_way(then_text, else_text);
    let la = then_text.len() as int;
    let lb = else_text.len() as int;
    let c = args[0].as_bool();
    let result = if c {
        then_text
    } else {
        else_text
    };
    assert(t.len() == la + lb + 11);
    assert(t[0] == '%' && t[1] == '?' && t[2] == '%' && t[3] == 'p' && t[4] == '1' && t[5] == '%'
        && t[6] == 't');
    assert(t[7 + la] == '%' && t[8 + la] == 'e');
    assert(t[9 + la + lb] == '%' && t[10 + la + lb] == ';');
    assert(t.subrange(7, 7 + la) =~= then_text);
    assert(t.subrange(9 + la, 9 + la + lb) =~= else_text);
    assert forall|i: int| 7 <= i < 7 + la implies t[i] != '%' by {
        assert(t[i] == then_text[i - 7]);
    }
    assert forall|i: int| 9 + la <= i < 9 + la + lb implies t[i] != '%' by {
        assert(t[i] == else_text[i - 9 - la]);
    }

    let root = Frame { saw_if: true, ..fresh_frame(Branch::Root, false) };
    let m0 = initial();
    let m1 = Machine { pos: 2, frames: seq![root], ..m0 };
    let m2 = m1.push(args[0]).at(5);
    let m3 = Machine { pos: 7, frames: seq![root, fresh_frame(Branch::Then, c)], ..m0 };
    let m4 = m3.emit(t.subrange(7, 7 + la)).at(7 + la);
    let m5 = m4.push(Value::Number(0)).end_frame().at(8 + la);
    let kept = Frame {
        output: if c {
            then_text
        } else {
            Seq::empty()
        },
        ..root
    };
    let m6 = Machine { pos: 9 + la, frames: seq![kept, fresh_frame(Branch::Else, c)], ..m0 };
    let m7 = m6.emit(t.subrange(9 + la, 9 + la + lb)).at(9 + la + lb);
    let m8 = m7.push(Value::Number(1)).end_frame().at(10 + la + lb);
    let m9 = Machine {
        pos: 10 + la + lb,
        stack: seq![Value::Number(1)],
        frames: seq![Frame { output: result, ..root }],
        leaving: true,
        ..m0
    };

    assert(m0.coherent(t));
    assert(step(t, args, m0)->Next_0 =~~= m1);
    assert(step(t, args, m0) == Outcome::Next(m1));
    assert(m1.coherent(t));
    assert(offset(t[4], '1') == 0);
    assert(step(t, args, m1) == Outcome::Next(m2));
    assert(m2.coherent(t));
    assert(step(t, args, m2)->Next_0 =~~= m3);
    assert(step(t, args, m2) == Outcome::Next(m3));
    assert(m3.coherent(t));
    lemma_text_is_copied(t, args, m3, la);
    assert(m4.coherent(t));
    assert(step(t, args, m4) == Outcome::Next(m5));
    assert(m5.coherent(t));
    assert(m4.active().output =~= then_text);
    assert(step(t, args, m5)->Next_0.frames =~~= m6.frames);
    assert(step(t, args, m5)->Next_0 =~~= m6);
    assert(step(t, args, m5) == Outcome::Next(m6));
    assert(m6.coherent(t));
    lemma_text_is_copied(t, args, m6, lb);
    assert(m7.coherent(t));
    assert(step(t, args, m7) == Outcome::Next(m8));
    assert(m8.coherent(t));
    assert(m7.active().output =~= else_text);
    assert(step(t, args, m8)->Next_0.frames =~~= m9.frames);
    assert(step(t, args, m8)->Next_0 =~~= m9);
    assert(step(t, args, m8) == Outcome::Next(m9));
    assert(m9.coherent(t));
    assert(step(t, args, m9) == Outcome::Done(Ok::<Seq<char>, EvalError>(result)));
    assert(run(t, args, m9) == Ok::<Seq<char>, EvalError>(result));
    assert(run(t, args, m8) == run(t, args, m9));
    assert(run(t, args, m7) == run(t, args, m8));
    assert(run(t, args, m6) == run(t, args, m7));
    assert(run(t, args, m5) == run(t, args, m6));
    assert(run(t, args, m4) == run(t, args, m5));
    assert(run(t, args, m3) == run(t, args, m4));
    assert(run(t, args, m2) == run(t, args, m3));
    assert(run(t, args, m1) == run(t, args, m2));
    assert(run(t, args, m0) == run(t, args, m1));
}

} // verus!
