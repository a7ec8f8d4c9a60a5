//! The executable stack machine: one `Program` owns the unified memory, the
//! operand-region boundary and the two mode flags, and runs the
//! fetch-decode-execute loop.  Every method is specified against the
//! transition functions of `model`.

use crate::model::{
    add_of, char_of, chicken_of, code_ok, compare_of, exec_of, fetch_of, first_bad_line,
    first_bad_word, input_val, jump_of, line_ok, lemma_first_bad_line_at, lemma_first_bad_word_at,
    load_addr_of, load_char_of, load_of, loaded, mul_of, pop2_of, pop_of, push_lit_of, push_of,
    run_steps, step_of, store_of, sub_of, Outcome, State,
};
use crate::text::{
    char_from_u32, char_string, is_space, is_space_char, lemma_lines_head, lemma_lines_len,
    lemma_words_word, lines_of, parse_i64, str_eq, trim_str, words,
};
use crate::value::{render_v, Error, Token, Val};
use vstd::prelude::*;
use vstd::string::{StrSliceExecFns, StringExecFns};

verus! {

/// The program-region image of the first `n` lines: one numeric cell per
/// line holding that line's reserved-word count.
spec fn counts_prefix(ls: Seq<Seq<char>>, n: int) -> Seq<Val> {
    ls.subrange(0, n).map_values(|l: Seq<char>| Val::Num(words(l).len() as i64))
}

/// Counts the reserved words of one source line; any other non-empty word is
/// a parse error naming the word and the 0-based line number.
fn count_words_line(line: &str, line_no: usize) -> (r: Result<i64, Error>)
    ensures
        match r {
            Ok(c) => line_ok(line@) && 0 <= c && c as int == words(line@).len() as int,
            Err(e) => !line_ok(line@) && (e matches Error::ParseError(w, l) && w@ == words(
                line@,
            )[first_bad_word(words(line@))] && l == line_no),
        },
{
    let len = line.unicode_len();
    let ghost ws = words(line@);
    let mut i: usize = 0;
    let mut count: i64 = 0;
    proof {
        assert(line@.subrange(0, len as int) =~= line@);
        assert(ws.subrange(0, ws.len() as int) =~= ws);
    }
    while i < len
        invariant
            len == line@.len(),
            i <= len,
            0 <= count,
            7 * count <= i as int,
            ws == words(line@),
            count as int <= ws.len() as int,
            forall|t: int| 0 <= t < count ==> ws[t] == "chicken"@,
            words(line@.subrange(i as int, len as int)) == ws.subrange(
                count as int,
                ws.len() as int,
            ),
        decreases len - i,
    {
        let c = line.get_char(i);
        if is_space_char(c) {
            proof {
                let sub = line@.subrange(i as int, len as int);
                assert(sub[0] == line@[i as int]);
                assert(words(sub) == words(sub.subrange(1, sub.len() as int)));
                assert(sub.subrange(1, sub.len() as int) =~= line@.subrange(
                    i + 1,
                    len as int,
                ));
            }
            i += 1;
        } else {
            let mut j = i + 1;
            while j < len && !is_space_char(line.get_char(j))
                invariant
                    len == line@.len(),
                    i < j <= len,
                    forall|t: int| i <= t < j ==> !is_space(line@[t]),
                decreases len - j,
            {
                j += 1;
            }
            let w = line.substring_char(i, j);
            proof {
                let sub = line@.subrange(i as int, len as int);
                let k = (j - i) as int;
                assert(forall|t: int| 0 <= t < k ==> !is_space(sub[t]));
                assert(k == sub.len() || is_space(sub[k]));
                lemma_words_word(sub, k);
                assert(sub.subrange(0, k) =~= w@);
                assert(sub.subrange(k, sub.len() as int) =~= line@.subrange(
                    j as int,
                    len as int,
                ));
                assert(words(sub) =~~= seq![w@] + words(line@.subrange(j as int, len as int)));
                assert(ws.subrange(count as int, ws.len() as int) =~~= seq![w@] + words(
                    line@.subrange(j as int, len as int),
                ));
                assert(ws.subrange(count as int, ws.len() as int).len() >= 1);
                assert(count < ws.len());
                assert(ws[count as int] == ws.subrange(count as int, ws.len() as int)[0]);
                assert(ws[count as int] == w@);
            }
            if str_eq(w, "chicken") {
                proof {
                    reveal_strlit("chicken");
                    assert(w@.len() == 7);
                    let rest = words(line@.subrange(j as int, len as int));
                    assert forall|m: int| 0 <= m < ws.len() - (count + 1) implies ws.subrange(
                        count as int + 1,
                        ws.len() as int,
                    )[m] == rest[m] by {
                        assert(ws.subrange(count as int, ws.len() as int)[m + 1] == ws[count + 1
                            + m]);
                        assert((seq![w@] + rest)[m + 1] == rest[m]);
                    }
                    assert(ws.subrange(count as int + 1, ws.len() as int) =~= rest);
                }
                count += 1;
                i = j;
            } else {
                proof {
                    assert(ws[count as int] != "chicken"@);
                    lemma_first_bad_word_at(ws, count as int);
                    assert(!line_ok(line@));
                }
                return Err(Error::ParseError(w.to_owned(), line_no));
            }
        }
    }
    proof {
        assert(line@.subrange(len as int, len as int) =~= Seq::<char>::empty());
        assert(words(line@.subrange(len as int, len as int)).len() == 0);
        assert(count as int == ws.len());
        assert(ws.subrange(0, count as int) =~= ws);
    }
    Ok(count)
}

/// A loaded program: the unified memory (instruction pointer, input register,
/// program region, operand region), the operand-region boundary, and the two
/// immutable mode flags.
pub struct Program {
    stack: Vec<Token>,
    data_stack_index: usize,
    debug: bool,
    backwards_compatible: bool,
}

impl View for Program {
    type V = State;

    closed spec fn view(&self) -> State {
        State {
            mem: self.stack.deep_view(),
            dsi: self.data_stack_index as int,
            debug: self.debug,
            bc: self.backwards_compatible,
        }
    }
}

impl Program {
    /// Pushes a value onto the end of memory.
    fn push_token(&mut self, t: Token)
        ensures
            final(self)@ == push_of(old(self)@, t@),
    {
        self.stack.push(t);
        proof {
            assert(self.stack.deep_view() =~= old(self).stack.deep_view().push(t@));
        }
    }

    /// Pops the topmost memory cell, tracking the operand-region boundary's
    /// low-water mark; underflows on empty memory.
    pub fn pop_stack(&mut self) -> (r: Result<Token, Error>)
        ensures
            match pop_of(old(self)@) {
                Ok((v, s)) => r matches Ok(t) && t@ == v && final(self)@ == s,
                Err(e) => r matches Err(e2) && e2 == e && final(self)@ == old(self)@,
            },
    {
        if self.stack.len() == 0 {
            return Err(Error::StackUnderflow);
        }
        if self.stack.len() == self.data_stack_index {
            self.data_stack_index = self.data_stack_index - 1;
        }
        let t = self.stack.pop().unwrap();
        proof {
            assert(self.stack.deep_view() =~= old(self).stack.deep_view().drop_last());
            assert(t@ == old(self).stack.deep_view().last());
        }
        Ok(t)
    }

    /// Pops twice; the result pairs the top value with the one below it.
    pub fn pop_stack_twice(&mut self) -> (r: Result<(Token, Token), Error>)
        ensures
            match pop2_of(old(self)@) {
                Ok(((a, b), s)) => r matches Ok(p) && p.0@ == a && p.1@ == b && final(self)@ == s,
                Err(e) => r matches Err(e2) && e2 == e,
            },
    {
        let a = match self.pop_stack() {
            Ok(t) => t,
            Err(e) => return Err(e),
        };
        let b = match self.pop_stack() {
            Ok(t) => t,
            Err(e) => return Err(e),
        };
        Ok((a, b))
    }

    /// Fetches one value exactly as an instruction is fetched, advancing the
    /// instruction pointer.
    pub fn next_token(&mut self) -> (r: Result<i64, Error>)
        ensures
            match fetch_of(old(self)@) {
                Ok((n, s)) => r matches Ok(m) && m == n && final(self)@ == s,
                Err(e) => r matches Err(e2) && e2 == e,
            },
    {
        if self.stack.len() == 0 {
            return Err(Error::IndexError);
        }
        let ip: i64 = match &self.stack[0] {
            Token::Num(n) => *n,
            Token::Chars(_) => return Err(Error::TypeError),
        };
        if ip < 0 || (ip as u64) >= (self.stack.len() as u64) {
            return Err(Error::IndexError);
        }
        let op = self.stack[ip as usize].clone();
        self.stack[0] = Token::Num(ip.wrapping_add(1));
        proof {
            assert(self.stack.deep_view() =~= old(self).stack.deep_view().update(
                0,
                Val::Num(ip.wrapping_add(1)),
            ));
        }
        match op {
            Token::Num(n) => Ok(n),
            Token::Chars(_) => Err(Error::TypeError),
        }
    }

    /// CHICKEN: pushes the text `"chicken"`.
    pub fn chicken(&mut self)
        ensures
            chicken_of(old(self)@) matches Ok(s) && final(self)@ == s,
    {
        self.push_token(Token::Chars(String::from_str("chicken")));
    }

    /// ADD: pops twice and pushes the sum per the mode matrix.
    pub fn add(&mut self) -> (r: Result<(), Error>)
        ensures
            match add_of(old(self)@) {
                Ok(s) => r is Ok && final(self)@ == s,
                Err(e) => r matches Err(e2) && e2 == e,
            },
    {
        let (a, b) = match self.pop_stack_twice() {
            Ok(p) => p,
            Err(e) => return Err(e),
        };
        let v = b.add(a);
        self.push_token(v);
        Ok(())
    }

    /// SUB: pops twice and pushes the difference, `"NaN"` on textual operands
    /// in backwards-compatible mode, fatal on them otherwise.
    pub fn sub(&mut self) -> (r: Result<(), Error>)
        ensures
            match sub_of(old(self)@) {
                Ok(s) => r is Ok && final(self)@ == s,
                Err(e) => r matches Err(e2) && e2 == e,
            },
    {
        let (a, b) = match self.pop_stack_twice() {
            Ok(p) => p,
            Err(e) => return Err(e),
        };
        if self.backwards_compatible {
            let v = b.js_sub(a);
            self.push_token(v);
            Ok(())
        } else {
            match b.sub(a) {
                Ok(v) => {
                    self.push_token(v);
                    Ok(())
                },
                Err(e) => Err(e),
            }
        }
    }

    /// MUL: pops twice and pushes the numeric product; a textual operand is
    /// fatal.
    pub fn mul(&mut self) -> (r: Result<(), Error>)
        ensures
            match mul_of(old(self)@) {
                Ok(s) => r is Ok && final(self)@ == s,
                Err(e) => r matches Err(e2) && e2 == e,
            },
    {
        let (a, b) = match self.pop_stack_twice() {
            Ok(p) => p,
            Err(e) => return Err(e),
        };
        match a.mul(b) {
            Ok(v) => {
                self.push_token(v);
                Ok(())
            },
            Err(e) => Err(e),
        }
    }

    /// COMPARE: pops twice; standard mode pushes numeric 1 or 0,
    /// backwards-compatible mode pushes numeric 1 for true and the text
    /// `"false"` for false.
    pub fn compare(&mut self) -> (r: Result<(), Error>)
        ensures
            match compare_of(old(self)@) {
                Ok(s) => r is Ok && final(self)@ == s,
                Err(e) => r matches Err(e2) && e2 == e,
            },
    {
        let (a, b) = match self.pop_stack_twice() {
            Ok(p) => p,
            Err(e) => return Err(e),
        };
        let t = if self.backwards_compatible {
            if a.js_eq(&b) {
                Token::Num(1)
            } else {
                Token::Chars(String::from_str("false"))
            }
        } else {
            if a == b {
                Token::Num(1)
            } else {
                Token::Num(0)
            }
        };
        self.push_token(t);
        Ok(())
    }

    /// LOAD: fetches a selector like an instruction, then loads from memory
    /// (selector 0) or from the characters of the base cell at the selector.
    pub fn load(&mut self) -> (r: Result<(), Error>)
        ensures
            match load_of(old(self)@) {
                Ok(s) => r is Ok && final(self)@ == s,
                Err(e) => r matches Err(e2) && e2 == e,
            },
    {
        let source = match self.next_token() {
            Ok(n) => n,
            Err(e) => return Err(e),
        };
        if source == 0 {
            self.load_from_stack()
        } else {
            self.load_from_token(source)
        }
    }

    /// LOAD with selector 0: pops a numeric address, bounds-checked, and
    /// pushes a copy of the cell at that address.
    pub fn load_from_stack(&mut self) -> (r: Result<(), Error>)
        ensures
            match load_addr_of(old(self)@) {
                Ok(s) => r is Ok && final(self)@ == s,
                Err(e) => r matches Err(e2) && e2 == e,
            },
    {
        let t = match self.pop_stack() {
            Ok(t) => t,
            Err(e) => return Err(e),
        };
        match t {
            Token::Num(ix) => {
                if ix < 0 || (ix as u64) >= (self.stack.len() as u64) {
                    return Err(Error::IndexError);
                }
                let v = self.stack[ix as usize].clone();
                self.push_token(v);
                Ok(())
            },
            Token::Chars(_) => Err(Error::TypeError),
        }
    }

    /// LOAD with a non-zero selector: pops a numeric character index and
    /// pushes the single character at that offset of the textual base cell;
    /// a numeric base or an out-of-range offset yields `"undefined"` in
    /// backwards-compatible mode and is fatal otherwise.
    pub fn load_from_token(&mut self, source: i64) -> (r: Result<(), Error>)
        ensures
            match load_char_of(old(self)@, source) {
                Ok(s) => r is Ok && final(self)@ == s,
                Err(e) => r matches Err(e2) && e2 == e,
            },
    {
        let t = match self.pop_stack() {
            Ok(t) => t,
            Err(e) => return Err(e),
        };
        if source < 0 || (source as u64) >= (self.stack.len() as u64) {
            return Err(Error::IndexError);
        }
        let base = self.stack[source as usize].clone();
        match (t, base) {
            (Token::Num(ti), Token::Chars(cs)) => {
                let clen = cs.as_str().unicode_len();
                if ti >= 0 && (ti as u64) < (clen as u64) {
                    let c = cs.as_str().get_char(ti as usize);
                    self.push_token(Token::Chars(char_string(c)));
                    Ok(())
                } else if self.backwards_compatible {
                    self.push_token(Token::Chars(String::from_str("undefined")));
                    Ok(())
                } else {
                    Err(Error::IndexError)
                }
            },
            (Token::Num(_), Token::Num(_)) => {
                if self.backwards_compatible {
                    self.push_token(Token::Chars(String::from_str("undefined")));
                    Ok(())
                } else {
                    Err(Error::TypeError)
                }
            },
            (Token::Chars(_), _) => Err(Error::TypeError),
        }
    }

    /// STORE: pops a numeric address, bounds-checked, then a value, and
    /// overwrites the cell at that address; any region may be targeted.
    pub fn store(&mut self) -> (r: Result<(), Error>)
        ensures
            match store_of(old(self)@) {
                Ok(s) => r is Ok && final(self)@ == s,
                Err(e) => r matches Err(e2) && e2 == e,
            },
    {
        let (addr, value) = match self.pop_stack_twice() {
            Ok(p) => p,
            Err(e) => return Err(e),
        };
        match addr {
            Token::Num(ix) => {
                if ix < 0 || (ix as u64) >= (self.stack.len() as u64) {
                    return Err(Error::IndexError);
                }
                let ghost before = self.stack.deep_view();
                self.stack[ix as usize] = value;
                proof {
                    assert(self.stack.deep_view() =~= before.update(ix as int, value@));
                }
                Ok(())
            },
            Token::Chars(_) => Err(Error::TypeError),
        }
    }

    /// JUMP: pops a numeric offset, then a condition; when the condition
    /// branches, adds the offset to the instruction pointer without range
    /// validation.
    pub fn jump(&mut self) -> (r: Result<(), Error>)
        ensures
            match jump_of(old(self)@) {
                Ok(s) => r is Ok && final(self)@ == s,
                Err(e) => r matches Err(e2) && e2 == e,
            },
    {
        let (offset, condition) = match self.pop_stack_twice() {
            Ok(p) => p,
            Err(e) => return Err(e),
        };
        let o = match offset {
            Token::Num(o) => o,
            Token::Chars(_) => return Err(Error::TypeError),
        };
        let br = match &condition {
            Token::Chars(c) => {
                let t = trim_str(c.as_str());
                !t.is_empty() && !(self.backwards_compatible && (str_eq(t, "NaN") || str_eq(
                    t,
                    "false",
                ) || str_eq(t, "undefined")))
            },
            Token::Num(n) => *n != 0,
        };
        if br {
            if self.stack.len() == 0 {
                return Err(Error::IndexError);
            }
            let ip = match &self.stack[0] {
                Token::Num(n) => *n,
                Token::Chars(_) => return Err(Error::TypeError),
            };
            let ghost before = self.stack.deep_view();
            self.stack[0] = Token::Num(ip.wrapping_add(o));
            proof {
                assert(self.stack.deep_view() =~= before.update(
                    0,
                    Val::Num(ip.wrapping_add(o)),
                ));
            }
            Ok(())
        } else {
            Ok(())
        }
    }

    /// CHAR: pops a value; backwards-compatible mode wraps its textual or
    /// decimal form in an HTML numeric character reference, standard mode
    /// converts a number to the one-character text of that code point — fatal
    /// unless the number is a Unicode scalar value — and pushes a text back
    /// unchanged.
    pub fn char(&mut self) -> (r: Result<(), Error>)
        ensures
            match char_of(old(self)@) {
                Ok(s) => r is Ok && final(self)@ == s,
                Err(e) => r matches Err(e2) && e2 == e,
            },
    {
        let t = match self.pop_stack() {
            Ok(t) => t,
            Err(e) => return Err(e),
        };
        if self.backwards_compatible {
            let text = t.render();
            let mut out = String::from_str("&#");
            out.append(text.as_str());
            out.append(";");
            self.push_token(Token::Chars(out));
            Ok(())
        } else {
            match t {
                Token::Chars(_) => {
                    self.push_token(t);
                    Ok(())
                },
                Token::Num(n) => if n >= 0 && n <= 0x10ffff {
                    match char_from_u32(n as u32) {
                        Some(c) => {
                            self.push_token(Token::Chars(char_string(c)));
                            Ok(())
                        },
                        None => Err(Error::ConversionError),
                    }
                } else {
                    Err(Error::ConversionError)
                },
            }
        }
    }

    /// The literal-push handler: pushes the numeric literal ten less than the
    /// fetched value.
    pub fn push(&mut self, n: i64)
        ensures
            final(self)@ == push_lit_of(old(self)@, n),
    {
        self.push_token(Token::Num(n.wrapping_sub(10)));
    }

    /// Dispatches an executed instruction value to its opcode handler, or to
    /// the literal-push handler for values outside 1 through 9.
    pub fn execute(&mut self, n: i64) -> (r: Result<(), Error>)
        ensures
            match exec_of(old(self)@, n) {
                Ok(s) => r is Ok && final(self)@ == s,
                Err(e) => r matches Err(e2) && e2 == e,
            },
    {
        if n == 1 {
            self.chicken();
            Ok(())
        } else if n == 2 {
            self.add()
        } else if n == 3 {
            self.sub()
        } else if n == 4 {
            self.mul()
        } else if n == 5 {
            self.compare()
        } else if n == 6 {
            self.load()
        } else if n == 7 {
            self.store()
        } else if n == 8 {
            self.jump()
        } else if n == 9 {
            self.char()
        } else {
            self.push(n);
            Ok(())
        }
    }

    /// The constructor: classifies the raw input as a numeric or textual
    /// register value, splits the source into lines, loads one numeric cell
    /// per line holding that line's reserved-word count followed by a zero
    /// terminator, and records the operand-region boundary.  The first word
    /// that is not the reserved word is a parse error naming the word and its
    /// 0-based line number.
    pub fn new(code: String, user_input: &str, debug: bool, backwards_compatible: bool) -> (r:
        Result<Program, Error>)
        ensures
            code_ok(code@) ==> (r matches Ok(p) && p@ == loaded(
                code@,
                user_input@,
                debug,
                backwards_compatible,
            )),
            !code_ok(code@) ==> ({
                let ls = lines_of(code@);
                let bl = first_bad_line(ls);
                r matches Err(e) && (e matches Error::ParseError(w, l) && w@ == words(
                    ls[bl],
                )[first_bad_word(words(ls[bl]))] && l == bl)
            }),
    {
        let input = match parse_i64(user_input) {
            Some(num) => if num >= 0 {
                Token::Num(num)
            } else {
                Token::Chars(user_input.to_owned())
            },
            None => Token::Chars(user_input.to_owned()),
        };
        let ghost iv = input_val(user_input@);
        proof {
            assert(input@ == iv);
        }
        let cs = code.as_str();
        let clen = cs.unicode_len();
        let ghost ls = lines_of(code@);
        let mut stack: Vec<Token> = Vec::new();
        stack.push(Token::Num(2));
        stack.push(input);
        let mut pos: usize = 0;
        let mut line_no: usize = 0;
        let mut end_reached = false;
        proof {
            lemma_lines_len(code@);
            assert(stack.deep_view() =~= seq![Val::Num(2), iv]);
            assert(code@.subrange(0, clen as int) =~= code@);
            assert(counts_prefix(ls, 0) =~= Seq::<Val>::empty());
            assert(stack.deep_view() =~= seq![Val::Num(2), iv] + counts_prefix(ls, 0));
        }
        while !end_reached
            invariant
                cs@ == code@,
                clen == code@.len(),
                pos <= clen,
                line_no <= pos,
                ls == lines_of(code@),
                iv == input_val(user_input@),
                !end_reached ==> line_no < ls.len(),
                !end_reached ==> lines_of(code@.subrange(pos as int, clen as int))
                    == ls.subrange(line_no as int, ls.len() as int),
                !end_reached ==> forall|t: int| 0 <= t < line_no ==> line_ok(#[trigger] ls[t]),
                !end_reached ==> stack.deep_view() =~= seq![Val::Num(2), iv] + counts_prefix(
                    ls,
                    line_no as int,
                ),
                end_reached ==> forall|t: int| 0 <= t < ls.len() ==> line_ok(#[trigger] ls[t]),
                end_reached ==> stack.deep_view() =~= seq![Val::Num(2), iv] + counts_prefix(
                    ls,
                    ls.len() as int,
                ),
            decreases clen - pos + (if end_reached { 0int } else { 1int }),
        {
            let mut j = pos;
            while j < clen && cs.get_char(j) != '\n'
                invariant
                    cs@ == code@,
                    clen == code@.len(),
                    pos <= j <= clen,
                    forall|t: int| pos <= t < j ==> code@[t] != '\n',
                decreases clen - j,
            {
                j += 1;
            }
            let line = cs.substring_char(pos, j);
            proof {
                let rem = code@.subrange(pos as int, clen as int);
                let k = (j - pos) as int;
                assert(forall|t: int| 0 <= t < k ==> rem[t] != '\n');
                if j < clen {
                    assert(rem[k] == code@[j as int]);
                }
                lemma_lines_head(rem, k);
                if j == clen {
                    assert(lines_of(rem) == seq![rem]);
                    assert(ls.subrange(line_no as int, ls.len() as int) == seq![rem]);
                    assert(ls[line_no as int] == ls.subrange(line_no as int, ls.len() as int)[0]);
                    assert(rem =~= line@);
                    assert(ls.len() == line_no + 1);
                } else {
                    let after = rem.subrange(k + 1, rem.len() as int);
                    assert(lines_of(rem) == seq![rem.subrange(0, k)] + lines_of(after));
                    assert(ls[line_no as int] == ls.subrange(line_no as int, ls.len() as int)[0]);
                    assert(rem.subrange(0, k) =~= line@);
                    lemma_lines_len(after);
                    assert(ls.subrange(line_no as int, ls.len() as int).len() >= 2);
                    assert(line_no + 1 < ls.len());
                    assert(after =~= code@.subrange(j as int + 1, clen as int));
                    let rest = lines_of(code@.subrange(j as int + 1, clen as int));
                    assert forall|m: int| 0 <= m < ls.len() - (line_no + 1) implies ls.subrange(
                        line_no as int + 1,
                        ls.len() as int,
                    )[m] == rest[m] by {
                        assert(ls.subrange(line_no as int, ls.len() as int)[m + 1] == ls[line_no
                            + 1 + m]);
                        assert((seq![rem.subrange(0, k)] + rest)[m + 1] == rest[m]);
                    }
                    assert(ls.subrange(line_no as int + 1, ls.len() as int) =~= rest);
                }
                assert(ls[line_no as int] == line@);
            }
            match count_words_line(line, line_no) {
                Ok(c) => {
                    let ghost before = stack.deep_view();
                    stack.push(Token::Num(c));
                    proof {
                        assert(line_ok(ls[line_no as int]));
                        assert(c == words(ls[line_no as int]).len() as i64);
                        assert(stack.deep_view() =~= before.push(Val::Num(c)));
                        assert(stack.deep_view() =~= seq![Val::Num(2), iv] + counts_prefix(
                            ls,
                            line_no as int + 1,
                        ));
                    }
                },
                Err(e) => {
                    proof {
                        assert(!line_ok(ls[line_no as int]));
                        lemma_first_bad_line_at(ls, line_no as int);
                        assert(!code_ok(code@));
                    }
                    return Err(e);
                },
            }
            if j == clen {
                end_reached = true;
            } else {
                pos = j + 1;
                line_no += 1;
            }
        }
        stack.push(Token::Num(0));
        let dsi = stack.len();
        let p = Program { stack, data_stack_index: dsi, debug, backwards_compatible };
        proof {
            assert(code_ok(code@));
            let target = loaded(code@, user_input@, debug, backwards_compatible);
            assert(ls.subrange(0, ls.len() as int) =~= ls);
            assert(p@.mem =~= target.mem);
            assert(p@ == target);
        }
        Ok(p)
    }

    /// One step of the fetch-decode-execute loop: `Ok(None)` when the machine
    /// keeps running, `Ok(Some(output))` when it halts — leaving behind the
    /// memory shrunk by the final pop — and the fatal error otherwise.
    pub fn step(&mut self) -> (r: Result<Option<String>, Error>)
        ensures
            match step_of(old(self)@) {
                Outcome::Running(s) => r matches Ok(o) && o is None && final(self)@ == s,
                Outcome::Done(out, s) => r matches Ok(o) && (o matches Some(t) && t@ == out)
                    && final(self)@ == s,
                Outcome::Fail(e) => r matches Err(e2) && e2 == e,
            },
    {
        if self.stack.len() == 0 {
            return Err(Error::IndexError);
        }
        let ip: i64 = match &self.stack[0] {
            Token::Num(n) => *n,
            Token::Chars(_) => return Err(Error::TypeError),
        };
        if ip >= 0 && (ip as u64) >= (self.stack.len() as u64) {
            let t = match self.pop_stack() {
                Ok(t) => t,
                Err(e) => return Err(e),
            };
            return Ok(Some(t.render()));
        }
        let instruction = match self.next_token() {
            Ok(n) => n,
            Err(e) => return Err(e),
        };
        if instruction == 0 {
            let t = match self.pop_stack() {
                Ok(t) => t,
                Err(e) => return Err(e),
            };
            return Ok(Some(t.render()));
        }
        match self.execute(instruction) {
            Ok(_) => Ok(None),
            Err(e) => Err(e),
        }
    }

    /// The main loop: steps the machine until it halts with its rendered
    /// final value — leaving behind the memory shrunk by the final pop — or
    /// fails, or exhausts the given step budget.  `Ok(None)` means the budget
    /// ran out with the machine still mid-run; the caller may call again to
    /// continue, so a program that never halts can be driven forever.
    pub fn run(&mut self, fuel: u64) -> (r: Result<Option<String>, Error>)
        ensures
            match r {
                Ok(o) => match o {
                    Some(out) => exists|n: nat|
                        run_steps(old(self)@, n) == Outcome::Done(out@, final(self)@),
                    None => run_steps(old(self)@, fuel as nat) == Outcome::Running(
                        final(self)@,
                    ),
                },
                Err(e) => exists|n: nat| run_steps(old(self)@, n) == Outcome::Fail(e),
            },
    {
        let ghost s0 = self@;
        let mut used: u64 = 0;
        while used < fuel
            invariant
                used <= fuel,
                run_steps(s0, used as nat) == Outcome::Running(self@),
                s0 == old(self)@,
            decreases fuel - used,
        {
            match self.step() {
                Ok(None) => {
                    used += 1;
                },
                Ok(Some(out)) => {
                    proof {
                        assert(run_steps(s0, (used + 1) as nat) == Outcome::Done(out@, self@));
                    }
                    return Ok(Some(out));
                },
                Err(e) => {
                    proof {
                        assert(run_steps(s0, (used + 1) as nat) == Outcome::Fail(e));
                    }
                    return Err(e);
                },
            }
        }
        Ok(None)
    }

    /// Whether diagnostic tracing was requested at construction.
    pub fn trace_enabled(&self) -> (r: bool)
        ensures
            r == self@.debug,
    {
        self.debug
    }

    /// Whether backwards-compatible semantics are active.
    pub fn compat_enabled(&self) -> (r: bool)
        ensures
            r == self@.bc,
    {
        self.backwards_compatible
    }

    /// The current memory length.
    pub fn memory_len(&self) -> (r: usize)
        ensures
            r as int == self@.mem.len() as int,
    {
        self.stack.len()
    }

    /// The first index of the operand region, for diagnostic display.
    pub fn operand_region_start(&self) -> (r: usize)
        ensures
            r as int == self@.dsi,
    {
        self.data_stack_index
    }

    /// The rendered text of the memory cell at `i`, when it exists; a pure
    /// observer for diagnostic display.
    pub fn cell_text(&self, i: usize) -> (r: Option<String>)
        ensures
            match r {
                Some(t) => (i as int) < self@.mem.len() as int && t@ == render_v(
                    self@.mem[i as int],
                ),
                None => (i as int) >= self@.mem.len() as int,
            },
    {
        if i < self.stack.len() {
            Some(self.stack[i].render())
        } else {
            None
        }
    }
}

} // verus!
