//! The mathematical model of the machine: an abstract state, the loader's
//! image of a source program, and a one-step transition function covering
//! fetch, dispatch and each of the ten opcodes.  The executable machine in
//! `machine` is specified against these functions alone.

use crate::text::{is_scalar_value, lines_of, parse_int, trimmed, words};
use crate::value::{add_v, eq_v, js_eq_v, js_sub_v, render_v, Error, Val};
use vstd::prelude::*;

verus! {

/// The abstract machine state: the unified memory, the operand-region
/// boundary, and the two immutable mode flags.
pub struct State {
    /// The memory: cell 0 is the instruction pointer, cell 1 the input
    /// register, then the program region, its zero terminator, and the
    /// operand region.
    pub mem: Seq<Val>,
    /// The first index of the operand region, tracking the low-water mark of
    /// the operand stack; used only for diagnostic display.
    pub dsi: int,
    /// Whether diagnostic tracing was requested.  Never consulted by the
    /// semantics.
    pub debug: bool,
    /// Whether backwards-compatible semantics are active.
    pub bc: bool,
}

/// What one machine step yields: a next state; a halt, with the rendered
/// final output and the state left behind once the final value has been
/// popped; or a fatal error.
pub enum Outcome {
    Running(State),
    Done(Seq<char>, State),
    Fail(Error),
}

/// Pops the topmost memory cell, decrementing the operand-region boundary
/// when memory shrinks back down to it; underflows on empty memory.
pub open spec fn pop_of(s: State) -> Result<(Val, State), Error> {
    if s.mem.len() == 0 {
        Err(Error::StackUnderflow)
    } else {
        let v = s.mem.last();
        let d = if s.mem.len() == s.dsi {
            s.dsi - 1
        } else {
            s.dsi
        };
        Ok((v, State { mem: s.mem.drop_last(), dsi: d, ..s }))
    }
}

/// Pops twice: the result pairs the top value with the one below it.
pub open spec fn pop2_of(s: State) -> Result<((Val, Val), State), Error> {
    match pop_of(s) {
        Err(e) => Err(e),
        Ok((a, s1)) => match pop_of(s1) {
            Err(e) => Err(e),
            Ok((b, s2)) => Ok(((a, b), s2)),
        },
    }
}

/// Pushes a value onto the end of memory.
pub open spec fn push_of(s: State, v: Val) -> State {
    State { mem: s.mem.push(v), ..s }
}

/// Fetches one value as an instruction is fetched: the instruction-pointer
/// cell must be numeric and in range, the cell it addresses must be numeric,
/// and the instruction pointer advances by one.
pub open spec fn fetch_of(s: State) -> Result<(i64, State), Error> {
    if s.mem.len() == 0 {
        Err(Error::IndexError)
    } else {
        match s.mem[0] {
            Val::Chars(_) => Err(Error::TypeError),
            Val::Num(ip) => if ip < 0 || ip as int >= s.mem.len() as int {
                Err(Error::IndexError)
            } else {
                let s2 = State { mem: s.mem.update(0, Val::Num(ip.wrapping_add(1))), ..s };
                match s.mem[ip as int] {
                    Val::Chars(_) => Err(Error::TypeError),
                    Val::Num(n) => Ok((n, s2)),
                }
            },
        }
    }
}

/// CHICKEN: pushes the text `"chicken"`.
pub open spec fn chicken_of(s: State) -> Result<State, Error> {
    Ok(push_of(s, Val::Chars("chicken"@)))
}

/// ADD: pops `a` then `b` and pushes `b + a` per the mode matrix.
pub open spec fn add_of(s: State) -> Result<State, Error> {
    match pop2_of(s) {
        Err(e) => Err(e),
        Ok(((a, b), s2)) => Ok(push_of(s2, add_v(b, a))),
    }
}

/// SUB: pops `a` then `b` and pushes `b - a`; textual operands are fatal in
/// standard mode and yield `"NaN"` in backwards-compatible mode.
pub open spec fn sub_of(s: State) -> Result<State, Error> {
    match pop2_of(s) {
        Err(e) => Err(e),
        Ok(((a, b), s2)) => if s.bc {
            Ok(push_of(s2, js_sub_v(b, a)))
        } else {
            match (b, a) {
                (Val::Num(x), Val::Num(y)) => Ok(push_of(s2, Val::Num(x.wrapping_sub(y)))),
                _ => Err(Error::TypeError),
            }
        },
    }
}

/// MUL: pops `a` then `b` and pushes the numeric product; a textual operand
/// is fatal.
pub open spec fn mul_of(s: State) -> Result<State, Error> {
    match pop2_of(s) {
        Err(e) => Err(e),
        Ok(((a, b), s2)) => match (a, b) {
            (Val::Num(x), Val::Num(y)) => Ok(push_of(s2, Val::Num(x.wrapping_mul(y)))),
            _ => Err(Error::TypeError),
        },
    }
}

/// COMPARE: pops `a` then `b`.  Standard mode pushes numeric 1 or 0;
/// backwards-compatible mode pushes numeric 1 for true but the text
/// `"false"` for false.
pub open spec fn compare_of(s: State) -> Result<State, Error> {
    match pop2_of(s) {
        Err(e) => Err(e),
        Ok(((a, b), s2)) => if s.bc {
            if js_eq_v(a, b) {
                Ok(push_of(s2, Val::Num(1)))
            } else {
                Ok(push_of(s2, Val::Chars("false"@)))
            }
        } else {
            if eq_v(a, b) {
                Ok(push_of(s2, Val::Num(1)))
            } else {
                Ok(push_of(s2, Val::Num(0)))
            }
        },
    }
}

/// LOAD with selector 0: pops a numeric address, bounds-checked against the
/// memory after the pop, and pushes a copy of the cell at that address.
pub open spec fn load_addr_of(s: State) -> Result<State, Error> {
    match pop_of(s) {
        Err(e) => Err(e),
        Ok((t, s2)) => match t {
            Val::Chars(_) => Err(Error::TypeError),
            Val::Num(ix) => if ix < 0 || ix as int >= s2.mem.len() as int {
                Err(Error::IndexError)
            } else {
                Ok(push_of(s2, s2.mem[ix as int]))
            },
        },
    }
}

/// LOAD with a non-zero selector: pops a numeric character index and pushes
/// the single character of the textual base cell at index `src`.  A numeric
/// base or an out-of-range offset pushes `"undefined"` in
/// backwards-compatible mode and is fatal otherwise.
pub open spec fn load_char_of(s: State, src: i64) -> Result<State, Error> {
    match pop_of(s) {
        Err(e) => Err(e),
        Ok((t, s2)) => if src < 0 || src as int >= s2.mem.len() as int {
            Err(Error::IndexError)
        } else {
            match (t, s2.mem[src as int]) {
                (Val::Num(ti), Val::Chars(cs)) => if 0 <= ti && (ti as int) < cs.len() as int {
                    Ok(push_of(s2, Val::Chars(seq![cs[ti as int]])))
                } else if s.bc {
                    Ok(push_of(s2, Val::Chars("undefined"@)))
                } else {
                    Err(Error::IndexError)
                },
                (Val::Num(_), Val::Num(_)) => if s.bc {
                    Ok(push_of(s2, Val::Chars("undefined"@)))
                } else {
                    Err(Error::TypeError)
                },
                (Val::Chars(_), _) => Err(Error::TypeError),
            }
        },
    }
}

/// LOAD: fetches a selector exactly as an instruction is fetched, then loads
/// from memory (selector 0) or from the characters of a base cell.
pub open spec fn load_of(s: State) -> Result<State, Error> {
    match fetch_of(s) {
        Err(e) => Err(e),
        Ok((src, s2)) => if src == 0 {
            load_addr_of(s2)
        } else {
            load_char_of(s2, src)
        },
    }
}

/// STORE: pops a numeric address, bounds-checked against the memory after
/// both pops, then a value, and overwrites the cell at that address.
pub open spec fn store_of(s: State) -> Result<State, Error> {
    match pop2_of(s) {
        Err(e) => Err(e),
        Ok(((addr, v), s2)) => match addr {
            Val::Chars(_) => Err(Error::TypeError),
            Val::Num(ix) => if ix < 0 || ix as int >= s2.mem.len() as int {
                Err(Error::IndexError)
            } else {
                Ok(State { mem: s2.mem.update(ix as int, v), ..s2 })
            },
        },
    }
}

/// Whether a JUMP condition value branches: a number branches unless 0; a
/// text branches unless it trims to the empty string or — in
/// backwards-compatible mode only — to one of the sentinel falsy strings.
pub open spec fn branches(cond: Val, bc: bool) -> bool {
    match cond {
        Val::Num(n) => n != 0,
        Val::Chars(c) => {
            let t = trimmed(c);
            t.len() != 0 && !(bc && (t == "NaN"@ || t == "false"@ || t == "undefined"@))
        },
    }
}

/// JUMP: pops a numeric offset, then a condition; when the condition
/// branches, the offset is added to the instruction pointer with no range
/// validation.
pub open spec fn jump_of(s: State) -> Result<State, Error> {
    match pop2_of(s) {
        Err(e) => Err(e),
        Ok(((off, cond), s2)) => match off {
            Val::Chars(_) => Err(Error::TypeError),
            Val::Num(o) => if branches(cond, s.bc) {
                if s2.mem.len() == 0 {
                    Err(Error::IndexError)
                } else {
                    match s2.mem[0] {
                        Val::Chars(_) => Err(Error::TypeError),
                        Val::Num(ip) => Ok(
                            State { mem: s2.mem.update(0, Val::Num(ip.wrapping_add(o))), ..s2 },
                        ),
                    }
                }
            } else {
                Ok(s2)
            },
        },
    }
}

/// CHAR: pops a value.  Backwards-compatible mode wraps its textual or
/// decimal form in an HTML numeric character reference; standard mode turns
/// a number into the one-character text of that code point — fatal for any
/// number that is not a Unicode scalar value, negative or beyond the Unicode
/// range included — and pushes a text back unchanged.
pub open spec fn char_of(s: State) -> Result<State, Error> {
    match pop_of(s) {
        Err(e) => Err(e),
        Ok((t, s2)) => if s.bc {
            Ok(push_of(s2, Val::Chars("&#"@ + render_v(t) + ";"@)))
        } else {
            match t {
                Val::Chars(_) => Ok(push_of(s2, t)),
                Val::Num(n) => if 0 <= n && n <= 0x10ffff && is_scalar_value(n as u32) {
                    Ok(push_of(s2, Val::Chars(seq![(n as u32) as char])))
                } else {
                    Err(Error::ConversionError)
                },
            }
        },
    }
}

/// The literal-push handler for a fetched value outside 0 through 9: pushes
/// the numeric literal ten less than the value.
pub open spec fn push_lit_of(s: State, n: i64) -> State {
    push_of(s, Val::Num(n.wrapping_sub(10)))
}

/// Dispatches an executed instruction value to its handler.
pub open spec fn exec_of(s: State, n: i64) -> Result<State, Error> {
    if n == 1 {
        chicken_of(s)
    } else if n == 2 {
        add_of(s)
    } else if n == 3 {
        sub_of(s)
    } else if n == 4 {
        mul_of(s)
    } else if n == 5 {
        compare_of(s)
    } else if n == 6 {
        load_of(s)
    } else if n == 7 {
        store_of(s)
    } else if n == 8 {
        jump_of(s)
    } else if n == 9 {
        char_of(s)
    } else {
        Ok(push_lit_of(s, n))
    }
}

/// Halting: pops one value from memory — shrinking it — and renders the
/// value as the final output.
pub open spec fn halt_of(s: State) -> Outcome {
    match pop_of(s) {
        Err(e) => Outcome::Fail(e),
        Ok((v, s2)) => Outcome::Done(render_v(v), s2),
    }
}

/// One step of the fetch-decode-execute loop: the machine halts when the
/// instruction pointer is no longer strictly below the memory length or when
/// the fetched value is exactly 0; otherwise it dispatches the fetched value.
pub open spec fn step_of(s: State) -> Outcome {
    if s.mem.len() == 0 {
        Outcome::Fail(Error::IndexError)
    } else {
        match s.mem[0] {
            Val::Chars(_) => Outcome::Fail(Error::TypeError),
            Val::Num(ip) => if ip >= 0 && ip as int >= s.mem.len() as int {
                halt_of(s)
            } else {
                match fetch_of(s) {
                    Err(e) => Outcome::Fail(e),
                    Ok((n, s2)) => if n == 0 {
                        halt_of(s2)
                    } else {
                        match exec_of(s2, n) {
                            Err(e) => Outcome::Fail(e),
                            Ok(s3) => Outcome::Running(s3),
                        }
                    },
                }
            },
        }
    }
}

/// The machine after `n` steps from `s`: still running, done with an output,
/// or failed.
pub open spec fn run_steps(s: State, n: nat) -> Outcome
    decreases n,
{
    if n == 0 {
        Outcome::Running(s)
    } else {
        match run_steps(s, (n - 1) as nat) {
            Outcome::Running(s2) => step_of(s2),
            done => done,
        }
    }
}

/// The input register's value: the input string as a number when it parses
/// exactly as a non-negative base-10 integer, the text itself otherwise.
pub open spec fn input_val(inp: Seq<char>) -> Val {
    match parse_int(inp) {
        Some(v) => if v >= 0 {
            Val::Num(v as i64)
        } else {
            Val::Chars(inp)
        },
        None => Val::Chars(inp),
    }
}

/// Whether every word of a source line is the reserved word.
pub open spec fn line_ok(line: Seq<char>) -> bool {
    forall|i: int| 0 <= i < words(line).len() ==> words(line)[i] == "chicken"@
}

/// Whether every line of the source parses.
pub open spec fn code_ok(code: Seq<char>) -> bool {
    forall|i: int| 0 <= i < lines_of(code).len() ==> line_ok(#[trigger] lines_of(code)[i])
}

/// The index of the first word that is not the reserved word.
pub open spec fn first_bad_word(ws: Seq<Seq<char>>) -> int
    decreases ws.len(),
{
    if ws.len() == 0 {
        0
    } else if ws[0] != "chicken"@ {
        0
    } else {
        1 + first_bad_word(ws.subrange(1, ws.len() as int))
    }
}

/// The index of the first line that does not parse.
pub open spec fn first_bad_line(ls: Seq<Seq<char>>) -> int
    decreases ls.len(),
{
    if ls.len() == 0 {
        0
    } else if !line_ok(ls[0]) {
        0
    } else {
        1 + first_bad_line(ls.subrange(1, ls.len() as int))
    }
}

/// The initial memory image of a well-formed source: the instruction pointer
/// at 2, the classified input, one numeric cell per line holding that line's
/// reserved-word count, and a zero terminator; the operand-region boundary
/// sits right after the terminator.
pub open spec fn loaded(code: Seq<char>, inp: Seq<char>, debug: bool, bc: bool) -> State {
    let ls = lines_of(code);
    let mem = seq![Val::Num(2), input_val(inp)] + ls.map_values(
        |l: Seq<char>| Val::Num(words(l).len() as i64),
    ) + seq![Val::Num(0)];
    State { mem, dsi: mem.len() as int, debug, bc }
}

pub proof fn lemma_first_bad_word_at(ws: Seq<Seq<char>>, k: int)
    requires
        0 <= k < ws.len(),
        forall|t: int| 0 <= t < k ==> ws[t] == "chicken"@,
        ws[k] != "chicken"@,
    ensures
        first_bad_word(ws) == k,
    decreases k,
{
    if k > 0 {
        let tail = ws.subrange(1, ws.len() as int);
        assert(forall|t: int| 0 <= t < k - 1 ==> tail[t] == "chicken"@);
        assert(tail[k - 1] != "chicken"@);
        lemma_first_bad_word_at(tail, k - 1);
    }
}

pub proof fn lemma_first_bad_line_at(ls: Seq<Seq<char>>, k: int)
    requires
        0 <= k < ls.len(),
        forall|t: int| 0 <= t < k ==> line_ok(#[trigger] ls[t]),
        !line_ok(ls[k]),
    ensures
        first_bad_line(ls) == k,
    decreases k,
{
    if k > 0 {
        let tail = ls.subrange(1, ls.len() as int);
        assert(forall|t: int| 0 <= t < k - 1 ==> line_ok(#[trigger] tail[t]));
        assert(!line_ok(tail[k - 1]));
        lemma_first_bad_line_at(tail, k - 1);
    }
}

} // verus!
