//! The evaluator's state and its steps, each proved to be the step of the
//! abstract machine.

use crate::formatter::{decimal, digits_end, format_value, push_decimal};
use crate::machine::{
    binary, binary_result, conversion_index, directive, formatted, initial, leave, literal,
    literal_value, parameter, quoted, quotient, register, remainder, settle, step, unary_result,
    wrap, Branch, Frame, Machine, Outcome,
};
use crate::param_string::{values, EvalError, Param, Variables};
use vstd::prelude::*;
use vstd::string::StringExecFns;

verus! {

/// One activation: a frame of the machine.
pub(crate) struct Activation {
    branch: Branch,
    cond: bool,
    saw_if: bool,
    output: String,
}

impl View for Activation {
    type V = Frame;

    closed spec fn view(&self) -> Frame {
        Frame { branch: self.branch, cond: self.cond, saw_if: self.saw_if, output: self.output@ }
    }
}

/// The views of a sequence of activations.
pub(crate) closed spec fn frames_of(activations: Seq<Activation>) -> Seq<Frame> {
    activations.map_values(|a: Activation| a@)
}

/// What a step of the engine led to.
pub(crate) enum Status {
    /// The evaluation goes on.
    Running,
    /// The evaluation has ended; the root frame holds the result.
    Finished,
    /// The evaluation has failed.
    Failed(EvalError),
}

/// A state of the machine.
pub(crate) struct Engine {
    pos: usize,
    stack: Vec<Param>,
    vars: Variables,
    waiting: Vec<Activation>,
    active: Activation,
    leaving: bool,
}

impl View for Engine {
    type V = Machine;

    closed spec fn view(&self) -> Machine {
        Machine {
            pos: self.pos as int,
            stack: values(self.stack@),
            statics: self.vars.statics(),
            dynamics: self.vars.dynamics(),
            frames: frames_of(self.waiting@).push(self.active@),
            leaving: self.leaving,
        }
    }
}

/// Whether the engine, in the state `after` and with the status `status`, is
/// where the machine's step has led.
pub(crate) open spec fn agrees(after: Machine, outcome: Outcome, status: Status) -> bool {
    match outcome {
        Outcome::Next(next) => status == Status::Running && after == next,
        Outcome::Done(Ok(text)) => status == Status::Finished && after.active().output == text,
        Outcome::Done(Err(e)) => status == Status::Failed(e),
    }
}

/// The quotient is no farther from zero than the dividend, and nearer where
/// the divisor is neither 1 nor -1; and it is what the checked division of
/// the machine's integers computes.
proof fn lemma_quotient(l: int, r: int)
    requires
        r != 0,
    ensures
        l >= 0 ==> 0 <= quotient(l, r) <= l || -l <= quotient(l, r) <= 0,
        l < 0 ==> 0 <= quotient(l, r) <= -l || l <= quotient(l, r) <= 0,
        l == 0 ==> quotient(l, r) == 0,
        l > 0 && r > 0 ==> quotient(l, r) == l / r,
        l < 0 && r < 0 ==> quotient(l, r) == (l * -1) / (r * -1),
        l < 0 && r > 0 ==> quotient(l, r) == ((l * -1) / r) * -1,
        l > 0 && r < 0 ==> quotient(l, r) == (l / (r * -1)) * -1,
        l < 0 && r < -1 ==> quotient(l, r) < -l,
        r == -1 ==> quotient(l, r) == -l,
{
    let a = if l < 0 {
        -l
    } else {
        l
    };
    let b = if r < 0 {
        -r
    } else {
        r
    };
    assert(0 <= a / b <= a && (b == 1 ==> a / b == a) && (b >= 2 && a > 0 ==> a / b < a))
        by (nonlinear_arith)
        requires
            a >= 0,
            b > 0,
    ;
}

/// The remainder lies between zero and the dividend; and it is what the
/// checked remainder of the machine's integers computes.
proof fn lemma_remainder(l: int, r: int)
    requires
        r != 0,
    ensures
        l >= 0 ==> 0 <= remainder(l, r) <= l,
        l < 0 ==> l <= remainder(l, r) <= 0,
        l == 0 ==> remainder(l, r) == 0,
        l > 0 && r > 0 ==> remainder(l, r) == l % r,
        l < 0 && r < 0 ==> remainder(l, r) == ((l * -1) % (r * -1)) * -1,
        l < 0 && r > 0 ==> remainder(l, r) == ((l * -1) % r) * -1,
        l > 0 && r < 0 ==> remainder(l, r) == l % (r * -1),
{
    let a = if l < 0 {
        -l
    } else {
        l
    };
    let b = if r < 0 {
        -r
    } else {
        r
    };
    assert(0 <= a % b <= a) by (nonlinear_arith)
        requires
            a >= 0,
            b > 0,
    ;
}

/// What the operator `op` makes of two operands.
fn binary_op(op: char, left: &Param, right: &Param) -> (r: Option<i32>)
    ensures
        r == binary_result(op, left@, right@),
{
    let l = left.as_int();
    let r = right.as_int();
    if op == '+' {
        let sum = l.wrapping_add(r);
        assert(sum == wrap(l + r));
        Some(sum)
    } else if op == '-' {
        let difference = l.wrapping_sub(r);
        assert(difference == wrap(l - r));
        Some(difference)
    } else if op == '*' {
        let product = l.wrapping_mul(r);
        assert(product == wrap(l * r));
        Some(product)
    } else if op == '/' {
        proof {
            if r != 0 {
                lemma_quotient(l as int, r as int);
            }
        }
        let q = l.checked_div(r);
        assert(q == binary_result(op, left@, right@));
        q
    } else if op == 'm' {
        proof {
            if r != 0 {
                lemma_remainder(l as int, r as int);
            }
        }
        let q = l.checked_rem(r);
        assert(q == binary_result(op, left@, right@));
        q
    } else if op == '^' {
        Some(l ^ r)
    } else if op == '&' {
        Some(l & r)
    } else if op == '|' {
        Some(l | r)
    } else if op == '=' {
        Some(
            if l == r {
                1
            } else {
                0
            },
        )
    } else if op == '>' {
        Some(
            if l > r {
                1
            } else {
                0
            },
        )
    } else if op == '<' {
        Some(
            if l < r {
                1
            } else {
                0
            },
        )
    } else if op == 'A' {
        Some(
            if left.as_bool() && right.as_bool() {
                1
            } else {
                0
            },
        )
    } else {
        Some(
            if left.as_bool() || right.as_bool() {
                1
            } else {
                0
            },
        )
    }
}

/// What the operator `op` makes of one operand.
fn unary_op(op: char, operand: &Param) -> (r: i32)
    ensures
        r == unary_result(op, operand@),
{
    if op == '!' {
        if operand.as_bool() {
            0
        } else {
            1
        }
    } else {
        !operand.as_int()
    }
}

impl Engine {
    /// The state in which an evaluation begins.
    pub(crate) fn new() -> (r: Engine)
        ensures
            r@ == initial(),
    {
        let r = Engine {
            pos: 0,
            stack: Vec::new(),
            vars: Variables::new(),
            waiting: Vec::new(),
            active: Activation {
                branch: Branch::Root,
                cond: false,
                saw_if: false,
                output: String::new(),
            },
            leaving: false,
        };
        assert(r@.stack =~= initial().stack);
        assert(r@.frames =~= initial().frames);
        r
    }

    /// The output of the active frame.
    pub(crate) fn into_output(self) -> (r: String)
        ensures
            r@ == self@.active().output,
    {
        self.active.output
    }

    /// Appends one character to the output of the active frame.
    fn emit_char(&mut self, c: char)
        ensures
            final(self)@ == old(self)@.emit(seq![c]),
    {
        self.active.output.push(c);
        assert(self.active.output@ =~= old(self).active.output@ + seq![c]);
        assert(self@.frames =~= old(self)@.emit(seq![c]).frames);
    }

    /// Appends a text to the output of the active frame.
    fn emit_str(&mut self, text: &str)
        ensures
            final(self)@ == old(self)@.emit(text@),
    {
        self.active.output.append(text);
        assert(self@.frames =~= old(self)@.emit(text@).frames);
    }

    /// Pushes an operand.
    fn push(&mut self, operand: Param)
        ensures
            final(self)@ == old(self)@.push(operand@),
    {
        self.stack.push(operand);
        assert(self@.stack =~= old(self)@.push(operand@).stack);
    }

    /// Pops an operand, if there is one.
    fn pop(&mut self) -> (r: Option<Param>)
        ensures
            match r {
                Some(operand) => old(self)@.stack.len() > 0 && operand@ == old(self)@.top()
                    && final(self)@ == old(self)@.pop(),
                None => old(self)@.stack.len() == 0 && final(self)@ == old(self)@,
            },
    {
        let r = self.stack.pop();
        assert(self@.stack =~= if r is Some {
            old(self)@.pop().stack
        } else {
            old(self)@.stack
        });
        r
    }

    /// Makes a new frame the active one.
    fn enter(&mut self, branch: Branch, cond: bool)
        ensures
            final(self)@ == old(self)@.enter(branch, cond),
    {
        let mut frame = Activation { branch, cond, saw_if: false, output: String::new() };
        std::mem::swap(&mut self.active, &mut frame);
        self.waiting.push(frame);
        assert(self@.frames =~= old(self)@.enter(branch, cond).frames);
    }

    /// `%p` and a digit.
    fn parameter(&mut self, t: &Vec<char>, args: &[Param]) -> (r: Status)
        requires
            old(self)@.pos + 1 < t.len(),
        ensures
            agrees(final(self)@, parameter(t@, values(args@), old(self)@), r),
    {
        let i = self.pos + 2;
        if i < t.len() && t[i] >= '1' && t[i] <= '9' && ((t[i] as u32 - 49) as usize) < args.len() {
            let index = (t[i] as u32 - 49) as usize;
            self.push(args[index].clone());
            self.pos = i + 1;
            Status::Running
        } else {
            Status::Failed(EvalError::Invalid(i))
        }
    }

    /// `%{`, digits and `}`.
    fn literal(&mut self, t: &Vec<char>) -> (r: Status)
        requires
            old(self)@.pos + 1 < t.len(),
        ensures
            agrees(final(self)@, literal(t@, old(self)@), r),
    {
        let from = self.pos + 2;
        let mut i = from;
        let mut lit: u32 = 0;
        while i < t.len() && t[i] >= '0' && t[i] <= '9'
            invariant
                from <= i <= t.len(),
                digits_end(t@, i as int, t.len() as int)
                    == digits_end(t@, from as int, t.len() as int),
                lit == literal_value(t@, from as int, i as int),
            decreases t.len() - i,
        {
            lit = lit.wrapping_mul(10).wrapping_add(t[i] as u32 - 48);
            i += 1;
        }
        if i < t.len() && t[i] == '}' {
            let n: i32 = if lit >= 0x8000_0000 {
                (lit as i64 - 0x1_0000_0000) as i32
            } else {
                lit as i32
            };
            self.push(Param::Number(n));
            self.pos = i + 1;
            Status::Running
        } else {
            Status::Failed(EvalError::Invalid(i))
        }
    }

    /// `%'`, a character and `'`.
    fn quoted(&mut self, t: &Vec<char>) -> (r: Status)
        requires
            old(self)@.pos + 1 < t.len(),
        ensures
            agrees(final(self)@, quoted(t@, old(self)@), r),
    {
        let i = self.pos + 2;
        if i >= t.len() {
            Status::Failed(EvalError::Invalid(i))
        } else if i + 1 >= t.len() || t[i + 1] != '\'' {
            Status::Failed(EvalError::Invalid(i + 1))
        } else {
            self.push(Param::Number(t[i] as i32));
            self.pos = i + 2;
            Status::Running
        }
    }

    /// `%P` or `%g` and a letter.
    fn register(&mut self, t: &Vec<char>) -> (r: Status)
        requires
            old(self)@.pos + 1 < t.len(),
        ensures
            agrees(final(self)@, register(t@, old(self)@), r),
    {
        let i = self.pos + 2;
        if i < t.len() && ((t[i] >= 'A' && t[i] <= 'Z') || (t[i] >= 'a' && t[i] <= 'z')) {
            let is_static = t[i] >= 'A' && t[i] <= 'Z';
            let index = if is_static {
                (t[i] as u32 - 65) as usize
            } else {
                (t[i] as u32 - 97) as usize
            };
            if t[self.pos + 1] == 'P' {
                match self.pop() {
                    None => {
                        return Status::Failed(EvalError::StackEmpty(i));
                    },
                    Some(operand) => {
                        self.vars.store(is_static, index, operand);
                    },
                }
            } else {
                let operand = self.vars.load(is_static, index);
                self.push(operand);
            }
            self.pos = i + 1;
            Status::Running
        } else {
            Status::Failed(EvalError::Invalid(i))
        }
    }

    /// An operator that takes two operands.
    fn binary(&mut self, t: &Vec<char>) -> (r: Status)
        requires
            old(self)@.pos + 1 < t.len(),
        ensures
            agrees(final(self)@, binary(t@, old(self)@), r),
    {
        let op = t[self.pos + 1];
        let right = self.pop();
        let left = self.pop();
        match (right, left) {
            (Some(second), Some(first)) => {
                match binary_op(op, &first, &second) {
                    Some(n) => {
                        self.push(Param::Number(n));
                    },
                    None => {
                        return Status::Failed(EvalError::Invalid(self.pos + 1));
                    },
                }
            },
            _ => {},
        }
        self.pos = self.pos + 2;
        Status::Running
    }

    /// A format specification.
    fn formatted(&mut self, t: &Vec<char>) -> (r: Status)
        requires
            old(self)@.pos + 1 < t.len(),
        ensures
            agrees(final(self)@, formatted(t@, old(self)@), r),
    {
        let first = self.pos + 1;
        let mut end = first;
        while end < t.len() && !(t[end] == 'd' || t[end] == 'o' || t[end] == 'x' || t[end] == 'X'
            || t[end] == 's')
            invariant
                first <= end <= t.len(),
                conversion_index(t@, end as int) == conversion_index(t@, first as int),
            decreases t.len() - end,
        {
            end += 1;
        }
        if end >= t.len() {
            return Status::Failed(EvalError::InvalidPrintf(first));
        }
        match self.pop() {
            None => {},
            Some(operand) => {
                match format_value(t, first, end, &operand) {
                    Some(text) => {
                        self.emit_str(text.as_str());
                    },
                    None => {
                        return Status::Failed(EvalError::InvalidPrintf(first));
                    },
                }
            },
        }
        self.pos = end + 1;
        Status::Running
    }


    /// The directive at the cursor.
    fn directive(&mut self, t: &Vec<char>, args: &[Param]) -> (r: Status)
        requires
            old(self)@.pos + 1 < t.len(),
        ensures
            agrees(final(self)@, directive(t@, values(args@), old(self)@), r),
    {
        let at = self.pos + 1;
        let c = t[at];
        if c == '%' {
            self.emit_char('%');
            self.pos = at + 1;
        } else if c == 'c' {
            match self.pop() {
                Some(operand) => {
                    self.emit_char(operand.as_char());
                },
                None => {},
            }
            self.pos = at + 1;
        } else if c == 's' {
            match self.pop() {
                Some(operand) => {
                    self.emit_str(operand.as_str());
                },
                None => {},
            }
            self.pos = at + 1;
        } else if c == 'd' {
            match self.pop() {
                Some(operand) => {
                    let mut text = String::new();
                    push_decimal(&mut text, operand.as_int());
                    self.emit_str(text.as_str());
                    assert(text@ =~= decimal(operand@.as_int() as int));
                },
                None => {},
            }
            self.pos = at + 1;
        } else if c == 'p' {
            return self.parameter(t, args);
        } else if c == 'l' {
            match self.pop() {
                Some(operand) => {
                    let low = (operand.as_str().as_bytes().len() as u64) % 0x1_0000_0000;
                    let length: i32 = if low >= 0x8000_0000 {
                        (low as i64 - 0x1_0000_0000) as i32
                    } else {
                        low as i32
                    };
                    self.push(Param::Number(length));
                },
                None => {},
            }
            self.pos = at + 1;
        } else if c == '{' {
            return self.literal(t);
        } else if c == '\'' {
            return self.quoted(t);
        } else if c == 'P' || c == 'g' {
            return self.register(t);
        } else if c == '!' || c == '~' {
            match self.pop() {
                Some(operand) => {
                    self.push(Param::Number(unary_op(c, &operand)));
                },
                None => {},
            }
            self.pos = at + 1;
        } else if c == '+' || c == '-' || c == '*' || c == '/' || c == 'm' || c == '^' || c == '&'
            || c == '|' || c == '=' || c == '>' || c == '<' || c == 'A' || c == 'O' {
            return self.binary(t);
        } else if c == '?' {
            self.active.saw_if = true;
            self.pos = at + 1;
            assert(self@.frames =~= old(self)@.with_active(
                Frame { saw_if: true, ..old(self)@.active() },
            ).frames);
        } else if c == 't' {
            match self.pop() {
                Some(operand) => {
                    self.enter(Branch::Then, operand.as_bool());
                },
                None => {
                    return Status::Failed(EvalError::StackEmpty(at));
                },
            }
            self.pos = at + 1;
        } else if c == ';' || c == 'e' {
            self.push(
                Param::Number(
                    if c == ';' {
                        1
                    } else {
                        0
                    },
                ),
            );
            self.leaving = true;
            self.pos = at;
        } else if c == 'o' || c == 'X' || c == 'x' || c == ':' || (c >= '0' && c <= '9') {
            return self.formatted(t);
        } else {
            self.pos = at + 1;
        }
        Status::Running
    }

    /// A conditional of the active frame is complete.
    fn settle(&mut self, t: &Vec<char>)
        requires
            old(self)@.pos <= t.len(),
        ensures
            final(self)@ == settle(t@, old(self)@),
    {
        if self.active.saw_if {
            self.push(Param::Number(1));
            self.leaving = true;
        } else {
            if self.pos < t.len() {
                self.pos = self.pos + 1;
            }
            self.leaving = false;
        }
    }

    /// The active frame hands over to the one below.
    fn leave(&mut self, t: &Vec<char>) -> (r: Status)
        requires
            old(self)@.coherent(t@),
            old(self)@.leaving,
        ensures
            agrees(final(self)@, leave(t@, old(self)@), r),
    {
        let mut child = match self.waiting.pop() {
            Some(below) => below,
            None => {
                return Status::Finished;
            },
        };
        std::mem::swap(&mut self.active, &mut child);
        let chosen = match child.branch {
            Branch::Else => !child.cond,
            _ => child.cond,
        };
        let ghost below = Machine { frames: old(self)@.frames.drop_last(), ..old(self)@ };
        assert(self@.frames =~= below.frames);
        if chosen {
            self.emit_str(child.output.as_str());
        }
        assert(child@ == old(self)@.active());
        match child.branch {
            Branch::Else => {
                match self.pop() {
                    Some(done) => {
                        if !done.as_bool() {
                            return Status::Failed(EvalError::Invalid(self.pos));
                        }
                    },
                    None => {},
                }
                self.settle(t);
                Status::Running
            },
            _ => {
                if !(self.pos < t.len() && (t[self.pos] == 'e' || t[self.pos] == ';')) {
                    return Status::Failed(EvalError::Invalid(self.pos));
                }
                match self.pop() {
                    None => Status::Failed(EvalError::Invalid(self.pos)),
                    Some(ended) => {
                        if !ended.as_bool() {
                            self.enter(Branch::Else, child.cond);
                            self.pos = self.pos + 1;
                            self.leaving = false;
                        } else {
                            self.settle(t);
                        }
                        Status::Running
                    },
                }
            },
        }
    }

    /// One step of the machine.
    pub(crate) fn step(&mut self, t: &Vec<char>, args: &[Param]) -> (r: Status)
        requires
            old(self)@.coherent(t@),
        ensures
            agrees(final(self)@, step(t@, values(args@), old(self)@), r),
    {
        if self.leaving {
            self.leave(t)
        } else if self.pos >= t.len() {
            self.push(Param::Number(1));
            self.leaving = true;
            Status::Running
        } else if t[self.pos] != '%' {
            self.emit_char(t[self.pos]);
            self.pos = self.pos + 1;
            Status::Running
        } else if self.pos + 1 >= t.len() {
            Status::Failed(EvalError::Invalid(self.pos + 1))
        } else {
            self.directive(t, args)
        }
    }
}

} // verus!
