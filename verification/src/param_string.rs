//! Parameterized strings: the operands, the registers, and the evaluator.
//!
//! What a parameterized string means is defined in [`crate::machine`];
//! [`evaluate`] is proved to return just that.

use crate::engine::{Engine, Status};
use crate::formatter::{digits, push_digits};
use crate::machine::{eval, initial, lemma_step, remaining, run, REGISTERS};
use vstd::prelude::*;
use vstd::string::StringExecFns;
use vstd::utf8::{encode_utf8, is_ascii_chars, is_ascii_chars_encode_utf8};

verus! {

/// What an operand is: the view of a [`Param`].
pub enum Value {
    Bool(bool),
    Number(i32),
    Word(Seq<char>),
}

impl Value {
    /// The text of a word; the empty text for a number or a boolean.
    pub open spec fn as_str(self) -> Seq<char> {
        match self {
            Value::Word(s) => s,
            _ => Seq::empty(),
        }
    }

    /// A number itself; 1 or 0 for a boolean; 0 for a word.
    pub open spec fn as_int(self) -> i32 {
        match self {
            Value::Number(n) => n,
            Value::Bool(b) => if b {
                1
            } else {
                0
            },
            _ => 0,
        }
    }

    /// The character whose code is the low byte of a number, but the
    /// character 128 for the number 0; the character 0 for a boolean or a word.
    pub open spec fn as_char(self) -> char {
        match self {
            Value::Number(n) => if n == 0 {
                128u8 as char
            } else {
                ((n as int % 256) as u8) as char
            },
            _ => 0u8 as char,
        }
    }

    /// Whether a number is not 0; a boolean itself; false for a word.
    pub open spec fn as_bool(self) -> bool {
        match self {
            Value::Number(n) => n != 0,
            Value::Bool(b) => b,
            _ => false,
        }
    }
}

/// An operand: an argument of a parameterized string, an entry of the
/// evaluator's stack, or the content of a register.
#[derive(Debug)]
pub enum Param {
    Bool(bool),
    Number(i32),
    Word(String),
}

impl View for Param {
    type V = Value;

    open spec fn view(&self) -> Value {
        match *self {
            Param::Bool(b) => Value::Bool(b),
            Param::Number(n) => Value::Number(n),
            Param::Word(s) => Value::Word(s@),
        }
    }
}

impl Clone for Param {
    fn clone(&self) -> (r: Self)
        ensures
            r@ == self@,
    {
        match self {
            Param::Bool(b) => Param::Bool(*b),
            Param::Number(n) => Param::Number(*n),
            Param::Word(s) => Param::Word(s.clone()),
        }
    }
}

impl Default for Param {
    fn default() -> (r: Self)
        ensures
            r@ == Value::Number(0),
    {
        Param::Number(0)
    }
}

impl Param {
    /// The text of the operand: see [`Value::as_str`].
    pub fn as_str(&self) -> (r: &str)
        ensures
            r@ == self@.as_str(),
    {
        match self {
            Param::Word(s) => s.as_str(),
            _ => {
                let empty = "";
                proof {
                    reveal_strlit("");
                }
                assert(empty@ =~= Seq::<char>::empty());
                empty
            },
        }
    }

    /// The number of the operand: see [`Value::as_int`].
    pub fn as_int(&self) -> (r: i32)
        ensures
            r == self@.as_int(),
    {
        match self {
            Param::Number(n) => *n,
            Param::Bool(b) => {
                if *b {
                    1
                } else {
                    0
                }
            },
            _ => 0,
        }
    }

    /// The character of the operand: see [`Value::as_char`].
    pub fn as_char(&self) -> (r: char)
        ensures
            r == self@.as_char(),
    {
        match self {
            Param::Number(n) => {
                if *n == 0 {
                    128u8 as char
                } else {
                    let unsigned: u64 = if *n < 0 {
                        (*n as i64 + 0x1_0000_0000) as u64
                    } else {
                        *n as u64
                    };
                    ((unsigned % 256) as u8) as char
                }
            },
            _ => 0u8 as char,
        }
    }

    /// The truth of the operand: see [`Value::as_bool`].
    pub fn as_bool(&self) -> (r: bool)
        ensures
            r == self@.as_bool(),
    {
        match self {
            Param::Number(n) => *n != 0,
            Param::Bool(b) => *b,
            _ => false,
        }
    }
}

/// Why a parameterized string could not be evaluated, and the cursor's
/// position in the string at which that showed.
#[derive(Debug, Clone, Copy, PartialEq, Eq, Structural)]
pub enum EvalError {
    /// A directive needed an operand and the stack was empty.
    StackEmpty(usize),
    /// A directive is malformed or incomplete, or a conditional is.
    Invalid(usize),
    /// A format specification is malformed, has no conversion, or does not
    /// fit its operand.
    InvalidPrintf(usize),
}

impl EvalError {
    /// The position that the error carries.
    pub open spec fn at(self) -> usize {
        match self {
            EvalError::StackEmpty(pos) => pos,
            EvalError::Invalid(pos) => pos,
            EvalError::InvalidPrintf(pos) => pos,
        }
    }

    /// The position that the error carries.
    pub fn position(&self) -> (r: usize)
        ensures
            r == self.at(),
    {
        match self {
            EvalError::StackEmpty(pos) => *pos,
            EvalError::Invalid(pos) => *pos,
            EvalError::InvalidPrintf(pos) => *pos,
        }
    }

    /// A sentence that describes the error, with its position in brackets.
    pub fn message(&self) -> (r: String)
        ensures
            r@ == (match *self {
                EvalError::StackEmpty(_) => "Stack is empty ("@,
                EvalError::Invalid(_) => "Invalid terminfo ("@,
                EvalError::InvalidPrintf(_) => "Invalid printf format pattern ("@,
            }) + digits(self.at() as nat, 10, false) + ")"@,
    {
        let head = match self {
            EvalError::StackEmpty(_) => "Stack is empty (",
            EvalError::Invalid(_) => "Invalid terminfo (",
            EvalError::InvalidPrintf(_) => "Invalid printf format pattern (",
        };
        let mut text = head.to_owned();
        push_digits(&mut text, self.position() as u64, 10, false);
        text.append(")");
        text
    }
}

/// The views of a sequence of operands.
pub open spec fn values(operands: Seq<Param>) -> Seq<Value> {
    operands.map_values(|p: Param| p@)
}

/// The two banks of registers of one evaluation: the static one, which the
/// letters `A` to `Z` name, and the dynamic one, named by `a` to `z`.
pub struct Variables {
    static_vars: [Param; 26],
    dynamic_vars: [Param; 26],
}

impl Variables {
    /// What the static registers hold.
    pub closed spec fn statics(&self) -> Seq<Value> {
        values(self.static_vars@)
    }

    /// What the dynamic registers hold.
    pub closed spec fn dynamics(&self) -> Seq<Value> {
        values(self.dynamic_vars@)
    }

    /// Two banks in which every register holds the number 0.
    pub fn new() -> (r: Self)
        ensures
            r.statics() == initial().statics,
            r.dynamics() == initial().dynamics,
    {
        let r = Variables {
            static_vars: [
                Param::Number(0),
                Param::Number(0),
                Param::Number(0),
                Param::Number(0),
                Param::Number(0),
                Param::Number(0),
                Param::Number(0),
                Param::Number(0),
                Param::Number(0),
                Param::Number(0),
                Param::Number(0),
                Param::Number(0),
                Param::Number(0),
                Param::Number(0),
                Param::Number(0),
                Param::Number(0),
                Param::Number(0),
                Param::Number(0),
                Param::Number(0),
                Param::Number(0),
                Param::Number(0),
                Param::Number(0),
                Param::Number(0),
                Param::Number(0),
                Param::Number(0),
                Param::Number(0),
            ],
            dynamic_vars: [
                Param::Number(0),
                Param::Number(0),
                Param::Number(0),
                Param::Number(0),
                Param::Number(0),
                Param::Number(0),
                Param::Number(0),
                Param::Number(0),
                Param::Number(0),
                Param::Number(0),
                Param::Number(0),
                Param::Number(0),
                Param::Number(0),
                Param::Number(0),
                Param::Number(0),
                Param::Number(0),
                Param::Number(0),
                Param::Number(0),
                Param::Number(0),
                Param::Number(0),
                Param::Number(0),
                Param::Number(0),
                Param::Number(0),
                Param::Number(0),
                Param::Number(0),
                Param::Number(0),
            ],
        };
        assert(r.statics() =~= initial().statics);
        assert(r.dynamics() =~= initial().dynamics);
        r
    }

    /// A copy of what a register holds.
    pub(crate) fn load(&self, is_static: bool, index: usize) -> (r: Param)
        requires
            index < REGISTERS,
        ensures
            r@ == if is_static {
                self.statics()[index as int]
            } else {
                self.dynamics()[index as int]
            },
    {
        if is_static {
            self.static_vars[index].clone()
        } else {
            self.dynamic_vars[index].clone()
        }
    }

    /// Puts a value into a register.
    pub(crate) fn store(&mut self, is_static: bool, index: usize, value: Param)
        requires
            index < REGISTERS,
        ensures
            final(self).statics() == if is_static {
                old(self).statics().update(index as int, value@)
            } else {
                old(self).statics()
            },
            final(self).dynamics() == if is_static {
                old(self).dynamics()
            } else {
                old(self).dynamics().update(index as int, value@)
            },
    {
        if is_static {
            self.static_vars[index] = value;
            assert(self.statics() =~= old(self).statics().update(index as int, value@));
        } else {
            self.dynamic_vars[index] = value;
            assert(self.dynamics() =~= old(self).dynamics().update(index as int, value@));
        }
    }
}

/// The template that a string holds: each byte of the string is one
/// character of the template, the one with the byte's code.
pub open spec fn template_of(text: Seq<char>) -> Seq<char> {
    Seq::new(encode_utf8(text).len(), |i: int| encode_utf8(text)[i] as char)
}

/// A string of ASCII characters is its own template.
pub proof fn lemma_ascii_template(text: Seq<char>)
    requires
        is_ascii_chars(text),
    ensures
        template_of(text) == text,
{
    is_ascii_chars_encode_utf8(text);
    assert(template_of(text) =~= text);
}

/// The bytes of a string, each as one character.
fn characters(text: &str) -> (chars: Vec<char>)
    ensures
        chars@ == template_of(text@),
{
    let bytes = text.as_bytes();
    let mut chars: Vec<char> = Vec::new();
    let mut i: usize = 0;
    while i < bytes.len()
        invariant
            i <= bytes.len(),
            bytes@ == encode_utf8(text@),
            chars@ == Seq::new(i as nat, |k: int| bytes@[k] as char),
        decreases bytes.len() - i,
    {
        chars.push(bytes[i] as char);
        i += 1;
    }
    chars
}

/// Evaluates the parameterized string `term` for the arguments `params`.
///
/// The result is that of the abstract machine, [`eval`], on the template that
/// the string holds: the text that it produces, or the error on which its
/// evaluation stops. Every call begins with an empty stack and with the
/// number 0 in every register, so that the result depends on the string and
/// the arguments alone.
pub fn evaluate(term: &str, params: &[Param]) -> (r: Result<String, EvalError>)
    ensures
        match r {
            Ok(text) => eval(template_of(term@), values(params@)) == Ok::<Seq<char>, EvalError>(
                text@,
            ),
            Err(e) => eval(template_of(term@), values(params@)) == Err::<Seq<char>, EvalError>(e),
        },
{
    let chars = characters(term);
    let mut engine = Engine::new();
    loop
        invariant
            chars@ == template_of(term@),
            engine@.coherent(chars@),
            run(chars@, values(params@), engine@) == eval(template_of(term@), values(params@)),
        decreases remaining(chars@, engine@).0, remaining(chars@, engine@).1, remaining(
            chars@,
            engine@,
        ).2,
    {
        proof {
            lemma_step(chars@, values(params@), engine@);
        }
        match engine.step(&chars, params) {
            Status::Running => {},
            Status::Finished => {
                return Ok(engine.into_output());
            },
            Status::Failed(e) => {
                return Err(e);
            },
        }
    }
}

} // verus!
