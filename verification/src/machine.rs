//! The meaning of a parameterized string: an abstract machine with a cursor,
//! an operand stack, two banks of registers and a stack of frames, one frame
//! for the string itself and one for each branch of a conditional that is
//! being evaluated. [`eval`] runs it from its initial state to its end.
//!
//! A branch hands the way it ended to the frame that entered it over the
//! operand stack: it pushes 1 where it ended on `%;`, at the end of the
//! template, or after a conditional of its own that began with `%?`, and 0
//! where it ended on `%e`; the frame below pops that number.

use crate::formatter::{decimal, digits_end, format_text, is_conversion, is_digit};
use crate::param_string::{EvalError, Value};
use vstd::prelude::*;
use vstd::utf8::encode_utf8;

verus! {

/// How a frame was entered.
#[derive(Debug, Clone, Copy, PartialEq, Eq, Structural)]
pub enum Branch {
    /// The frame of the template itself.
    Root,
    /// The branch behind `%t`.
    Then,
    /// The branch behind `%e`.
    Else,
}

/// One activation of the evaluator.
#[verifier::ext_equal]
pub struct Frame {
    /// How the frame was entered.
    pub branch: Branch,
    /// The condition that `%t` popped, for a branch.
    pub cond: bool,
    /// Whether the frame has seen `%?`.
    pub saw_if: bool,
    /// The text that the frame has produced.
    pub output: Seq<char>,
}

/// A state of the evaluator.
#[verifier::ext_equal]
pub struct Machine {
    /// The cursor: an index into the template, or its length.
    pub pos: int,
    /// The operand stack; its top is its last entry.
    pub stack: Seq<Value>,
    /// The registers `A` to `Z`.
    pub statics: Seq<Value>,
    /// The registers `a` to `z`.
    pub dynamics: Seq<Value>,
    /// The frames; the last one is active.
    pub frames: Seq<Frame>,
    /// Whether the active frame has ended and is about to hand over.
    pub leaving: bool,
}

/// What one step of the machine leads to.
pub enum Outcome {
    /// The next state.
    Next(Machine),
    /// The end of the evaluation.
    Done(Result<Seq<char>, EvalError>),
}

/// Number of registers of a bank.
pub const REGISTERS: usize = 26;

/// The frame of a branch that has just been entered.
pub open spec fn fresh_frame(branch: Branch, cond: bool) -> Frame {
    Frame { branch, cond, saw_if: false, output: Seq::empty() }
}

/// The state in which an evaluation begins: the cursor at 0, the stack
/// empty, every register the number 0, and the root frame alone.
pub open spec fn initial() -> Machine {
    Machine {
        pos: 0,
        stack: Seq::empty(),
        statics: Seq::new(REGISTERS as nat, |i: int| Value::Number(0)),
        dynamics: Seq::new(REGISTERS as nat, |i: int| Value::Number(0)),
        frames: seq![fresh_frame(Branch::Root, false)],
        leaving: false,
    }
}

impl Machine {
    /// The same state with the cursor at `pos`.
    pub open spec fn at(self, pos: int) -> Machine {
        Machine { pos, ..self }
    }

    /// The top of the stack.
    pub open spec fn top(self) -> Value {
        self.stack.last()
    }

    /// The same state with `v` pushed.
    pub open spec fn push(self, v: Value) -> Machine {
        Machine { stack: self.stack.push(v), ..self }
    }

    /// The same state without the top of the stack.
    pub open spec fn pop(self) -> Machine {
        Machine { stack: self.stack.drop_last(), ..self }
    }

    /// The active frame.
    pub open spec fn active(self) -> Frame {
        self.frames.last()
    }

    /// The same state with `frame` in place of the active frame.
    pub open spec fn with_active(self, frame: Frame) -> Machine {
        Machine { frames: self.frames.drop_last().push(frame), ..self }
    }

    /// The same state with `text` appended to the output of the active frame.
    pub open spec fn emit(self, text: Seq<char>) -> Machine {
        self.with_active(Frame { output: self.active().output + text, ..self.active() })
    }

    /// The same state with a new active frame on top.
    pub open spec fn enter(self, branch: Branch, cond: bool) -> Machine {
        Machine { frames: self.frames.push(fresh_frame(branch, cond)), ..self }
    }

    /// The same state with the active frame about to hand over.
    pub open spec fn end_frame(self) -> Machine {
        Machine { leaving: true, ..self }
    }

    /// What holds of every state that an evaluation of `t` reaches: the
    /// cursor lies in the template or at its end, there is a frame, and the
    /// banks are complete.
    pub open spec fn coherent(self, t: Seq<char>) -> bool {
        &&& 0 <= self.pos <= t.len()
        &&& self.frames.len() >= 1
        &&& self.statics.len() == REGISTERS
        &&& self.dynamics.len() == REGISTERS
    }
}

// ---------------------------------------------------------------------------
// Arithmetic

/// The 32-bit two's complement number that is congruent to `x`.
pub open spec fn wrap(x: int) -> i32 {
    let low = x % 0x1_0000_0000;
    if low >= 0x8000_0000 {
        (low - 0x1_0000_0000) as i32
    } else {
        low as i32
    }
}

/// The length of a text: the number of bytes of its UTF-8 form, as a 32-bit
/// number.
pub open spec fn text_length(text: Seq<char>) -> i32 {
    wrap(encode_utf8(text).len() as int)
}

/// The quotient of `l` by `r`, rounded towards zero.
pub open spec fn quotient(l: int, r: int) -> int {
    if l >= 0 && r > 0 {
        l / r
    } else if l < 0 && r < 0 {
        (-l) / (-r)
    } else if l < 0 {
        -((-l) / r)
    } else {
        -(l / (-r))
    }
}

/// The remainder of `l` by `r` that has the sign of `l`.
pub open spec fn remainder(l: int, r: int) -> int {
    if l >= 0 && r > 0 {
        l % r
    } else if l < 0 && r < 0 {
        -((-l) % (-r))
    } else if l < 0 {
        -((-l) % r)
    } else {
        l % (-r)
    }
}

/// 1 for true, 0 for false.
pub open spec fn truth(b: bool) -> i32 {
    if b {
        1
    } else {
        0
    }
}

/// Whether `c` is one of the operators that take two operands.
pub open spec fn is_binary(c: char) -> bool {
    c == '+' || c == '-' || c == '*' || c == '/' || c == 'm' || c == '^' || c == '&' || c == '|'
        || c == '=' || c == '>' || c == '<' || c == 'A' || c == 'O'
}

/// What the operator `op` makes of `left` and `right`. Sum, difference and
/// product wrap around; a division by 0, and the one that leaves the 32 bits,
/// have no result.
pub open spec fn binary_result(op: char, left: Value, right: Value) -> Option<i32> {
    let l = left.as_int();
    let r = right.as_int();
    if op == '+' {
        Some(wrap(l + r))
    } else if op == '-' {
        Some(wrap(l - r))
    } else if op == '*' {
        Some(wrap(l * r))
    } else if op == '/' {
        if r == 0 || (l == i32::MIN && r == -1) {
            None
        } else {
            Some(quotient(l as int, r as int) as i32)
        }
    } else if op == 'm' {
        if r == 0 || (l == i32::MIN && r == -1) {
            None
        } else {
            Some(remainder(l as int, r as int) as i32)
        }
    } else if op == '^' {
        Some(l ^ r)
    } else if op == '&' {
        Some(l & r)
    } else if op == '|' {
        Some(l | r)
    } else if op == '=' {
        Some(truth(l == r))
    } else if op == '>' {
        Some(truth(l > r))
    } else if op == '<' {
        Some(truth(l < r))
    } else if op == 'A' {
        Some(truth(left.as_bool() && right.as_bool()))
    } else {
        Some(truth(left.as_bool() || right.as_bool()))
    }
}

/// What the operator `op` makes of one operand: `!` its logical negation,
/// `~` the complement of its bits.
pub open spec fn unary_result(op: char, operand: Value) -> i32 {
    if op == '!' {
        truth(!operand.as_bool())
    } else {
        !operand.as_int()
    }
}

/// How far the code of `c` lies behind that of `from`.
pub open spec fn offset(c: char, from: char) -> int {
    (c as int) - (from as int)
}

/// The value of the decimal digits `t[from..to]`, modulo 2^32.
pub open spec fn literal_value(t: Seq<char>, from: int, to: int) -> int
    decreases to - from,
{
    if to <= from {
        0
    } else {
        (literal_value(t, from, to - 1) * 10 + offset(t[to - 1], '0')) % 0x1_0000_0000
    }
}

/// Index of the first conversion character from `from` on; the length of the
/// template if there is none.
pub open spec fn conversion_index(t: Seq<char>, from: int) -> int
    decreases t.len() - from,
{
    if from < 0 || from >= t.len() || is_conversion(t[from]) {
        from
    } else {
        conversion_index(t, from + 1)
    }
}

/// Whether a directive that begins with `c` is a format specification.
pub open spec fn is_format_start(c: char) -> bool {
    c == 'o' || c == 'X' || c == 'x' || c == ':' || is_digit(c)
}

// ---------------------------------------------------------------------------
// The directives. In each of them the cursor of `m` is on a `%` that is not
// the last character, and `m.pos + 1` is the index of the directive's first
// character.

/// A directive that pops an operand and writes it: where the stack is empty
/// it writes nothing.
pub open spec fn write_top(m: Machine, text: Seq<char>) -> Machine {
    if m.stack.len() > 0 {
        m.pop().emit(text).at(m.pos + 2)
    } else {
        m.at(m.pos + 2)
    }
}

/// A directive that replaces the top of the stack by a number: where the
/// stack is empty it does nothing.
pub open spec fn replace_top(m: Machine, n: i32) -> Machine {
    if m.stack.len() > 0 {
        m.pop().push(Value::Number(n)).at(m.pos + 2)
    } else {
        m.at(m.pos + 2)
    }
}

/// `%p` and a digit from 1 to 9: pushes the argument of that number.
pub open spec fn parameter(t: Seq<char>, args: Seq<Value>, m: Machine) -> Outcome {
    let i = m.pos + 2;
    if i < t.len() && '1' <= t[i] <= '9' && offset(t[i], '1') < args.len() {
        Outcome::Next(m.push(args[offset(t[i], '1')]).at(i + 1))
    } else {
        Outcome::Done(Err(EvalError::Invalid(i as usize)))
    }
}

/// `%{`, decimal digits and `}`: pushes their value.
pub open spec fn literal(t: Seq<char>, m: Machine) -> Outcome {
    let from = m.pos + 2;
    let brace = digits_end(t, from, t.len() as int);
    if brace < t.len() && t[brace] == '}' {
        Outcome::Next(m.push(Value::Number(wrap(literal_value(t, from, brace)))).at(brace + 1))
    } else {
        Outcome::Done(Err(EvalError::Invalid(brace as usize)))
    }
}

/// `%'`, a character and `'`: pushes the character's code.
pub open spec fn quoted(t: Seq<char>, m: Machine) -> Outcome {
    let i = m.pos + 2;
    if i >= t.len() {
        Outcome::Done(Err(EvalError::Invalid(i as usize)))
    } else if i + 1 >= t.len() || t[i + 1] != '\'' {
        Outcome::Done(Err(EvalError::Invalid((i + 1) as usize)))
    } else {
        Outcome::Next(m.push(Value::Number(t[i] as i32)).at(i + 2))
    }
}

/// `%P` and a letter pops the top of the stack into the register of that
/// letter; `%g` and a letter pushes what the register holds. Capital letters
/// name the static bank, small letters the dynamic one.
pub open spec fn register(t: Seq<char>, m: Machine) -> Outcome {
    let i = m.pos + 2;
    if i < t.len() && ('A' <= t[i] <= 'Z' || 'a' <= t[i] <= 'z') {
        let is_static = 'A' <= t[i] <= 'Z';
        let index = if is_static {
            offset(t[i], 'A')
        } else {
            offset(t[i], 'a')
        };
        if t[m.pos + 1] == 'P' {
            if m.stack.len() == 0 {
                Outcome::Done(Err(EvalError::StackEmpty(i as usize)))
            } else if is_static {
                Outcome::Next(
                    Machine { statics: m.statics.update(index, m.top()), ..m.pop().at(i + 1) },
                )
            } else {
                Outcome::Next(
                    Machine { dynamics: m.dynamics.update(index, m.top()), ..m.pop().at(i + 1) },
                )
            }
        } else if is_static {
            Outcome::Next(m.push(m.statics[index]).at(i + 1))
        } else {
            Outcome::Next(m.push(m.dynamics[index]).at(i + 1))
        }
    } else {
        Outcome::Done(Err(EvalError::Invalid(i as usize)))
    }
}

/// An operator that takes two operands: pops the right one, then the left
/// one, and pushes the result. With one operand on the stack it pops that and
/// pushes nothing; with none it does nothing.
pub open spec fn binary(t: Seq<char>, m: Machine) -> Outcome {
    let op = t[m.pos + 1];
    if m.stack.len() >= 2 {
        match binary_result(op, m.pop().top(), m.top()) {
            Some(n) => Outcome::Next(m.pop().pop().push(Value::Number(n)).at(m.pos + 2)),
            None => Outcome::Done(Err(EvalError::Invalid((m.pos + 1) as usize))),
        }
    } else if m.stack.len() == 1 {
        Outcome::Next(m.pop().at(m.pos + 2))
    } else {
        Outcome::Next(m.at(m.pos + 2))
    }
}

/// A format specification: reaches to the first conversion character, pops an
/// operand and writes it formatted. With an empty stack it writes nothing.
pub open spec fn formatted(t: Seq<char>, m: Machine) -> Outcome {
    let first = m.pos + 1;
    let end = conversion_index(t, first);
    if end >= t.len() {
        Outcome::Done(Err(EvalError::InvalidPrintf(first as usize)))
    } else if m.stack.len() == 0 {
        Outcome::Next(m.at(end + 1))
    } else {
        match format_text(t, first, end, m.top()) {
            Some(text) => Outcome::Next(m.pop().emit(text).at(end + 1)),
            None => Outcome::Done(Err(EvalError::InvalidPrintf(first as usize))),
        }
    }
}

/// The directive at the cursor.
pub open spec fn directive(t: Seq<char>, args: Seq<Value>, m: Machine) -> Outcome {
    let at = m.pos + 1;
    let c = t[at];
    if c == '%' {
        Outcome::Next(m.emit(seq!['%']).at(at + 1))
    } else if c == 'c' {
        Outcome::Next(write_top(m, seq![m.top().as_char()]))
    } else if c == 's' {
        Outcome::Next(write_top(m, m.top().as_str()))
    } else if c == 'd' {
        Outcome::Next(write_top(m, decimal(m.top().as_int() as int)))
    } else if c == 'p' {
        parameter(t, args, m)
    } else if c == 'l' {
        Outcome::Next(replace_top(m, text_length(m.top().as_str())))
    } else if c == '{' {
        literal(t, m)
    } else if c == '\'' {
        quoted(t, m)
    } else if c == 'P' || c == 'g' {
        register(t, m)
    } else if c == '!' || c == '~' {
        Outcome::Next(replace_top(m, unary_result(c, m.top())))
    } else if is_binary(c) {
        binary(t, m)
    } else if c == '?' {
        Outcome::Next(m.with_active(Frame { saw_if: true, ..m.active() }).at(at + 1))
    } else if c == 't' {
        if m.stack.len() == 0 {
            Outcome::Done(Err(EvalError::StackEmpty(at as usize)))
        } else {
            Outcome::Next(m.pop().enter(Branch::Then, m.top().as_bool()).at(at + 1))
        }
    } else if c == ';' || c == 'e' {
        Outcome::Next(m.push(Value::Number(truth(c == ';'))).end_frame().at(at))
    } else if is_format_start(c) {
        formatted(t, m)
    } else {
        Outcome::Next(m.at(at + 1))
    }
}

// ---------------------------------------------------------------------------
// Frames that end

/// A conditional of the active frame is complete. A frame that has seen `%?`
/// ends with it. Another one goes on behind the terminator; the cursor stays
/// where it is if the branch ran into the end of the template.
pub open spec fn settle(t: Seq<char>, m: Machine) -> Machine {
    if m.active().saw_if {
        m.push(Value::Number(1)).end_frame()
    } else {
        Machine {
            leaving: false,
            ..m.at(
                if m.pos < t.len() {
                    m.pos + 1
                } else {
                    m.pos
                },
            )
        }
    }
}

/// Whether the cursor is on the `e` or the `;` of a directive that ends a
/// branch.
pub open spec fn on_terminator(t: Seq<char>, pos: int) -> bool {
    0 <= pos < t.len() && (t[pos] == 'e' || t[pos] == ';')
}

/// The active frame hands over to the one below. The root's output is the
/// result. The output of a branch is kept where the condition chose the
/// branch. A branch behind `%t` must end on `%e` or `%;`, its own or that of
/// a conditional in it: after `%e` the branch behind it is entered, after
/// `%;` the conditional is complete. A branch behind `%e` completes the
/// conditional; it must not end on a second `%e`.
pub open spec fn leave(t: Seq<char>, m: Machine) -> Outcome {
    let child = m.active();
    if m.frames.len() <= 1 {
        Outcome::Done(Ok(child.output))
    } else {
        let below = Machine { frames: m.frames.drop_last(), ..m };
        let chosen = if child.branch == Branch::Else {
            !child.cond
        } else {
            child.cond
        };
        let kept = if chosen {
            below.emit(child.output)
        } else {
            below
        };
        if child.branch == Branch::Else {
            if m.stack.len() > 0 && !m.top().as_bool() {
                Outcome::Done(Err(EvalError::Invalid(m.pos as usize)))
            } else if m.stack.len() > 0 {
                Outcome::Next(settle(t, kept.pop()))
            } else {
                Outcome::Next(settle(t, kept))
            }
        } else if !on_terminator(t, m.pos) || m.stack.len() == 0 {
            Outcome::Done(Err(EvalError::Invalid(m.pos as usize)))
        } else if !m.top().as_bool() {
            Outcome::Next(
                Machine { leaving: false, ..kept.pop().enter(Branch::Else, child.cond).at(
                    m.pos + 1,
                ) },
            )
        } else {
            Outcome::Next(settle(t, kept.pop()))
        }
    }
}

// ---------------------------------------------------------------------------
// The machine

/// One step. A frame that is about to hand over does so. At the end of the
/// template the active frame ends, as if on `%;`. A character other than `%`
/// is written. A `%` at the very end is an error; any other begins
/// a directive.
pub open spec fn step(t: Seq<char>, args: Seq<Value>, m: Machine) -> Outcome {
    if m.leaving {
        leave(t, m)
    } else if m.pos >= t.len() {
        Outcome::Next(m.push(Value::Number(1)).end_frame())
    } else if t[m.pos] != '%' {
        Outcome::Next(m.emit(seq![t[m.pos]]).at(m.pos + 1))
    } else if m.pos + 1 >= t.len() {
        Outcome::Done(Err(EvalError::Invalid((m.pos + 1) as usize)))
    } else {
        directive(t, args, m)
    }
}

/// What is left to do from a state: every step moves the cursor forward,
/// or else ends a frame, or else makes the active frame hand over.
pub open spec fn remaining(t: Seq<char>, m: Machine) -> (int, int, int) {
    (t.len() - m.pos, m.frames.len() as int, if m.leaving {
        0
    } else {
        1
    })
}

/// The result of running the machine from the state `m` to its end.
pub open spec fn run(t: Seq<char>, args: Seq<Value>, m: Machine) -> Result<Seq<char>, EvalError>
    decreases remaining(t, m).0, remaining(t, m).1, remaining(t, m).2,
    when m.coherent(t)
    via run_terminates
{
    match step(t, args, m) {
        Outcome::Done(result) => result,
        Outcome::Next(next) => run(t, args, next),
    }
}

#[via_fn]
proof fn run_terminates(t: Seq<char>, args: Seq<Value>, m: Machine) {
    lemma_step(t, args, m);
}

/// The result of a parameterized string `t` for the arguments `args`.
pub open spec fn eval(t: Seq<char>, args: Seq<Value>) -> Result<Seq<char>, EvalError> {
    run(t, args, initial())
}

/// The conversion index lies between its start and the end of the template.
pub proof fn lemma_conversion_index(t: Seq<char>, from: int)
    requires
        0 <= from <= t.len(),
    ensures
        from <= conversion_index(t, from) <= t.len(),
        conversion_index(t, from) < t.len() ==> is_conversion(t[conversion_index(t, from)]),
    decreases t.len() - from,
{
    if from < t.len() && !is_conversion(t[from]) {
        lemma_conversion_index(t, from + 1);
    }
}

/// The digits that begin at `from` end between `from` and `end`.
pub proof fn lemma_digits_end(t: Seq<char>, from: int, end: int)
    requires
        from <= end,
    ensures
        from <= digits_end(t, from, end) <= end,
    decreases end - from,
{
    if from < end && is_digit(t[from]) {
        lemma_digits_end(t, from + 1, end);
    }
}

/// A step from a coherent state leads to a coherent state that has less left
/// to do.
pub proof fn lemma_step(t: Seq<char>, args: Seq<Value>, m: Machine)
    requires
        m.coherent(t),
    ensures
        step(t, args, m) matches Outcome::Next(next) ==> {
            &&& next.coherent(t)
            &&& (remaining(t, next).0 < remaining(t, m).0 || (remaining(t, next).0 == remaining(
                t,
                m,
            ).0 && (remaining(t, next).1 < remaining(t, m).1 || (remaining(t, next).1
                == remaining(t, m).1 && remaining(t, next).2 < remaining(t, m).2))))
        },
{
    if !m.leaving && m.pos + 1 < t.len() && t[m.pos] == '%' {
        lemma_conversion_index(t, m.pos + 1);
        lemma_digits_end(t, m.pos + 2, t.len() as int);
    }
}

// ---------------------------------------------------------------------------
// What holds of every template

/// In a state at the end of the template in which the root frame is alone,
/// its output is the result.
pub proof fn lemma_root_ends(t: Seq<char>, args: Seq<Value>, m: Machine)
    requires
        m.coherent(t),
        !m.leaving,
        m.pos == t.len(),
        m.frames.len() == 1,
    ensures
        run(t, args, m) == Ok::<Seq<char>, EvalError>(m.active().output),
{
    let ended = m.push(Value::Number(1)).end_frame();
    assert(step(t, args, m) == Outcome::Next(ended));
    assert(ended.coherent(t));
    assert(step(t, args, ended) == Outcome::Done(Ok::<Seq<char>, EvalError>(m.active().output)));
    assert(run(t, args, ended) == Ok::<Seq<char>, EvalError>(m.active().output));
}

/// Characters without `%` are copied to the output of the active frame, and
/// the evaluation goes on behind them.
pub proof fn lemma_text_is_copied(t: Seq<char>, args: Seq<Value>, m: Machine, count: int)
    requires
        m.coherent(t),
        !m.leaving,
        count >= 0,
        m.pos + count <= t.len(),
        forall|i: int| m.pos <= i < m.pos + count ==> t[i] != '%',
    ensures
        run(t, args, m) == run(
            t,
            args,
            m.emit(t.subrange(m.pos, m.pos + count)).at(m.pos + count),
        ),
    decreases count,
{
    let end = m.emit(t.subrange(m.pos, m.pos + count)).at(m.pos + count);
    if count == 0 {
        assert(m.active().output + t.subrange(m.pos, m.pos) =~= m.active().output);
        assert(end.frames =~= m.frames);
        assert(end =~~= m);
    } else {
        let next = m.emit(seq![t[m.pos]]).at(m.pos + 1);
        assert(step(t, args, m) == Outcome::Next(next));
        lemma_text_is_copied(t, args, next, count - 1);
        let after = next.emit(t.subrange(next.pos, next.pos + count - 1)).at(next.pos + count - 1);
        assert(m.active().output + seq![t[m.pos]] + t.subrange(m.pos + 1, m.pos + count)
            =~= m.active().output + t.subrange(m.pos, m.pos + count));
        assert(after.frames =~= end.frames);
        assert(after =~~= end);
    }
}

/// A template without `%` produces itself, whatever the arguments.
pub proof fn lemma_plain_text_is_copied(t: Seq<char>, args: Seq<Value>)
    requires
        forall|i: int| 0 <= i < t.len() ==> t[i] != '%',
    ensures
        eval(t, args) == Ok::<Seq<char>, EvalError>(t),
{
    let end = initial().emit(t.subrange(0, t.len() as int)).at(t.len() as int);
    lemma_text_is_copied(t, args, initial(), t.len() as int);
    assert(end.active().output =~= t);
    lemma_root_ends(t, args, end);
}

/// An evaluation begins with the number 0 in every register: a template
/// that begins by reading one pushes 0, whatever was evaluated before.
pub proof fn lemma_registers_begin_at_zero(t: Seq<char>, args: Seq<Value>)
    requires
        t.len() >= 3,
        t[0] == '%',
        t[1] == 'g',
        'A' <= t[2] <= 'Z' || 'a' <= t[2] <= 'z',
    ensures
        step(t, args, initial()) == Outcome::Next(initial().push(Value::Number(0)).at(3)),
{
}

/// What a register holds after `%P` is what `%g` pushes: storing the top of
/// the stack and reading the register again leaves the stack as it was.
pub proof fn lemma_stored_is_read(t: Seq<char>, args: Seq<Value>, m: Machine)
    requires
        m.coherent(t),
        !m.leaving,
        m.stack.len() > 0,
        m.pos + 6 <= t.len(),
        t[m.pos] == '%',
        t[m.pos + 1] == 'P',
        'A' <= t[m.pos + 2] <= 'Z' || 'a' <= t[m.pos + 2] <= 'z',
        t[m.pos + 3] == '%',
        t[m.pos + 4] == 'g',
        t[m.pos + 5] == t[m.pos + 2],
    ensures
        step(t, args, m) matches Outcome::Next(stored) && step(t, args, stored)
            matches Outcome::Next(read) && read.stack == m.stack && read.pos == m.pos + 6,
{
    let stored = step(t, args, m)->Next_0;
    let read = step(t, args, stored)->Next_0;
    assert(read.stack =~= m.stack);
}

} // verus!
