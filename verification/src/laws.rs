//! Machine-independent laws of the semantics, each proved once and for all
//! over the model of `model`: the shape of a loaded program, the
//! backwards-compatible comparison rule, branch suppression on blank
//! conditions, the store/load round trip, the out-of-range character load,
//! and determinism of whole runs.

use crate::model::{
    compare_of, fetch_of, input_val, jump_of, load_addr_of, load_char_of, loaded, pop_of,
    run_steps,
    step_of, store_of, Outcome, State,
};
use crate::text::{is_space, lemma_trimmed_all_space, lines_of, words};
use crate::value::{js_eq_v, Error, Val};
use vstd::prelude::*;

verus! {

/// For any source, the loaded memory starts with the instruction pointer at
/// 2 and the classified input, then holds exactly one numeric cell per
/// source line, each equal to that line's reserved-word count, followed by
/// one terminating zero cell; the operand-region boundary sits right after
/// the terminator.
pub proof fn lemma_loaded_program_region(code: Seq<char>, inp: Seq<char>, debug: bool, bc: bool)
    ensures
        ({
            let st = loaded(code, inp, debug, bc);
            let ls = lines_of(code);
            &&& st.mem.len() == ls.len() + 3
            &&& st.mem[0] == Val::Num(2)
            &&& st.mem[1] == input_val(inp)
            &&& forall|i: int|
                0 <= i < ls.len() ==> st.mem[2 + i] == Val::Num(
                    words(#[trigger] ls[i]).len() as i64,
                )
            &&& st.mem.last() == Val::Num(0)
            &&& st.dsi == st.mem.len()
        }),
{
    let st = loaded(code, inp, debug, bc);
    let ls = lines_of(code);
    let counts = ls.map_values(|l: Seq<char>| Val::Num(words(l).len() as i64));
    assert(st.mem == seq![Val::Num(2), input_val(inp)] + counts + seq![Val::Num(0)]);
    assert(forall|i: int|
        0 <= i < ls.len() ==> st.mem[2 + i] == counts[i]);
}

/// The backwards-compatible COMPARE rule: with the operands `b` below and
/// `a` on top, the machine pushes numeric 1 exactly when the two are
/// js-equal — which for a cross-type pair holds exactly when the number is 0
/// and the text is empty or `"false"` — and pushes the text `"false"`, not
/// numeric 0, otherwise.
pub proof fn lemma_compare_bc(m: Seq<Val>, dsi: int, debug: bool, a: Val, b: Val)
    ensures
        ({
            let s = State { mem: m + seq![b, a], dsi, debug, bc: true };
            let res = if js_eq_v(a, b) {
                Val::Num(1)
            } else {
                Val::Chars("false"@)
            };
            compare_of(s) matches Ok(s2) && s2.mem == m + seq![res]
        }),
        forall|n: i64, t: Seq<char>|
            js_eq_v(Val::Num(n), Val::Chars(t)) <==> (n == 0 && (t.len() == 0 || t == "false"@)),
{
    let s = State { mem: m + seq![b, a], dsi, debug, bc: true };
    assert(s.mem.last() == a);
    assert(s.mem.drop_last() =~= m + seq![b]);
    assert((m + seq![b]).last() == b);
    assert((m + seq![b]).drop_last() =~= m);
    let res = if js_eq_v(a, b) {
        Val::Num(1)
    } else {
        Val::Chars("false"@)
    };
    assert(compare_of(s) matches Ok(s2) && s2.mem =~= m + seq![res]);
}

/// JUMP never branches on a textual condition that holds only whitespace, in
/// either mode: trimming yields the empty text, so both operands are
/// consumed and the rest of memory — the instruction pointer included — is
/// left untouched.
pub proof fn lemma_jump_blank(
    m: Seq<Val>,
    dsi: int,
    debug: bool,
    bc: bool,
    off: i64,
    c: Seq<char>,
)
    requires
        forall|i: int| 0 <= i < c.len() ==> is_space(c[i]),
    ensures
        ({
            let s = State { mem: m + seq![Val::Chars(c), Val::Num(off)], dsi, debug, bc };
            jump_of(s) matches Ok(s2) && s2.mem == m
        }),
{
    lemma_trimmed_all_space(c);
    let s = State { mem: m + seq![Val::Chars(c), Val::Num(off)], dsi, debug, bc };
    assert(s.mem.last() == Val::Num(off));
    assert(s.mem.drop_last() =~= m + seq![Val::Chars(c)]);
    assert((m + seq![Val::Chars(c)]).last() == Val::Chars(c));
    assert((m + seq![Val::Chars(c)]).drop_last() =~= m);
    assert(jump_of(s) matches Ok(s2) && s2.mem =~= m);
}

/// STORE at address `x` followed by LOAD at address `x` returns the stored
/// value unchanged, whatever region `x` targets; and when the stored value
/// is numeric, a fetch whose instruction pointer addresses the modified cell
/// observes the new value.
pub proof fn lemma_store_then_load(
    m: Seq<Val>,
    dsi: int,
    debug: bool,
    bc: bool,
    v: Val,
    x: i64,
    nv: i64,
)
    requires
        0 <= x < m.len(),
    ensures
        ({
            let s = State { mem: m + seq![v, Val::Num(x)], dsi, debug, bc };
            store_of(s) matches Ok(s1) && s1.mem == m.update(x as int, v)
        }),
        ({
            let s2 = State { mem: m.update(x as int, v) + seq![Val::Num(x)], dsi, debug, bc };
            load_addr_of(s2) matches Ok(s3) && s3.mem == m.update(x as int, v) + seq![v]
        }),
        v == Val::Num(nv) && m[0] == Val::Num(x) && x >= 1 ==> ({
            let s4 = State { mem: m.update(x as int, v), dsi, debug, bc };
            fetch_of(s4) matches Ok(p) && p.0 == nv
        }),
{
    let s = State { mem: m + seq![v, Val::Num(x)], dsi, debug, bc };
    assert(s.mem.last() == Val::Num(x));
    assert(s.mem.drop_last() =~= m + seq![v]);
    assert((m + seq![v]).last() == v);
    assert((m + seq![v]).drop_last() =~= m);
    assert(store_of(s) matches Ok(s1) && s1.mem =~= m.update(x as int, v));
    let um = m.update(x as int, v);
    let s2 = State { mem: um + seq![Val::Num(x)], dsi, debug, bc };
    assert(s2.mem.last() == Val::Num(x));
    assert(s2.mem.drop_last() =~= um);
    assert(um[x as int] == v);
    assert(load_addr_of(s2) matches Ok(s3) && s3.mem =~= um + seq![v]);
}

/// Loading a character index past the end of a textual base cell — or any
/// negative index — is fatal in standard mode and yields the text
/// `"undefined"` in backwards-compatible mode.
pub proof fn lemma_load_char_out_of_range(
    m: Seq<Val>,
    dsi: int,
    debug: bool,
    bc: bool,
    src: i64,
    ti: i64,
    cs: Seq<char>,
)
    requires
        0 <= src < m.len(),
        m[src as int] == Val::Chars(cs),
        ti < 0 || ti as int >= cs.len() as int,
    ensures
        ({
            let s = State { mem: m + seq![Val::Num(ti)], dsi, debug, bc };
            if bc {
                load_char_of(s, src) matches Ok(s2) && s2.mem == m + seq![
                    Val::Chars("undefined"@),
                ]
            } else {
                load_char_of(s, src) == Err::<State, Error>(Error::IndexError)
            }
        }),
{
    let s = State { mem: m + seq![Val::Num(ti)], dsi, debug, bc };
    assert(s.mem.last() == Val::Num(ti));
    assert(s.mem.drop_last() =~= m);
    if bc {
        assert(load_char_of(s, src) matches Ok(s2) && s2.mem =~= m + seq![
            Val::Chars("undefined"@),
        ]);
    }
}

/// Resuming: the machine after `a` steps, stepped `b` more times, is the
/// machine after `a + b` steps — so a run that exhausted one step budget
/// mid-run continues the very same run under the next budget.
pub proof fn lemma_run_steps_compose(s: State, s2: State, a: nat, b: nat)
    requires
        run_steps(s, a) == Outcome::Running(s2),
    ensures
        run_steps(s, a + b) == run_steps(s2, b),
    decreases b,
{
    if b > 0 {
        lemma_run_steps_compose(s, s2, a, (b - 1) as nat);
    }
}

/// What one round of the echo idiom loads: the input's character at `i`
/// itself in standard mode — CHAR is the identity on a textual value — and
/// its HTML numeric character reference wrap in backwards-compatible mode.
pub open spec fn echo_cell(c: char, bc: bool) -> Seq<char> {
    if bc {
        "&#"@ + seq![c] + ";"@
    } else {
        seq![c]
    }
}

/// One round of the echo idiom, for every input text and index: with the
/// instruction pointer at a literal push of character index `i`, then LOAD
/// with base-cell selector 1, then CHAR, and the input register holding
/// `inp` with `i` in range, three steps grow the operand region by exactly
/// `echo_cell(inp[i], bc)` and advance the pointer past the round.
pub proof fn lemma_echo_round(pre: State, p: i64, i: i64, inp: Seq<char>)
    requires
        2 <= p,
        p + 4 <= pre.mem.len() as int,
        p + 4 <= i64::MAX as int,
        0 <= i,
        i + 10 <= i64::MAX as int,
        (i as int) < inp.len() as int,
        pre.mem[0] == Val::Num(p),
        pre.mem[1] == Val::Chars(inp),
        pre.mem[p as int] == Val::Num((i + 10) as i64),
        pre.mem[p as int + 1] == Val::Num(6),
        pre.mem[p as int + 2] == Val::Num(1),
        pre.mem[p as int + 3] == Val::Num(9),
        pre.dsi <= pre.mem.len() as int,
    ensures
        run_steps(pre, 3) == Outcome::Running(
            State {
                mem: pre.mem.update(0, Val::Num((p + 4) as i64)).push(
                    Val::Chars(echo_cell(inp[i as int], pre.bc)),
                ),
                ..pre
            },
        ),
{
    let m = pre.mem;
    let c = inp[i as int];
    assert(run_steps(pre, 0) == Outcome::Running(pre));
    // Step 1: the literal push of the character index.
    let s1 = State { mem: m.update(0, Val::Num((p + 1) as i64)).push(Val::Num(i)), ..pre };
    assert(fetch_of(pre) matches Ok(f) && f.0 == (i + 10) as i64 && f.1.mem == m.update(
        0,
        Val::Num((p + 1) as i64),
    ));
    assert((i + 10) as i64 >= 10);
    assert(step_of(pre) == Outcome::Running(s1));
    assert(run_steps(pre, 1) == Outcome::Running(s1));
    // Step 2: LOAD, whose selector fetch consumes the next cell.
    assert(s1.mem.len() == m.len() + 1);
    assert(s1.mem[0] == Val::Num((p + 1) as i64));
    assert(s1.mem[p as int + 1] == Val::Num(6));
    let f2 = State { mem: s1.mem.update(0, Val::Num((p + 2) as i64)), ..pre };
    assert(fetch_of(s1) matches Ok(f) && f.0 == 6i64 && f.1 == f2);
    assert(f2.mem[0] == Val::Num((p + 2) as i64));
    assert(f2.mem[p as int + 2] == Val::Num(1));
    let f3 = State { mem: f2.mem.update(0, Val::Num((p + 3) as i64)), ..pre };
    assert(fetch_of(f2) matches Ok(f) && f.0 == 1i64 && f.1 == f3);
    assert(f3.mem.last() == Val::Num(i));
    assert(f3.mem.drop_last() =~= m.update(0, Val::Num((p + 3) as i64)));
    assert(f3.mem.len() != f3.dsi);
    let popped = State { mem: m.update(0, Val::Num((p + 3) as i64)), ..pre };
    assert(pop_of(f3) == Ok::<(Val, State), Error>((Val::Num(i), popped)));
    assert(popped.mem[1] == Val::Chars(inp));
    let s2 = State { mem: popped.mem.push(Val::Chars(seq![c])), ..pre };
    assert(load_char_of(f3, 1) == Ok::<State, Error>(s2));
    assert(step_of(s1) == Outcome::Running(s2));
    assert(run_steps(pre, 2) == Outcome::Running(s2));
    // Step 3: CHAR on the loaded one-character text.
    assert(s2.mem[0] == Val::Num((p + 3) as i64));
    assert(s2.mem[p as int + 3] == Val::Num(9));
    let f4 = State { mem: s2.mem.update(0, Val::Num((p + 4) as i64)), ..pre };
    assert(fetch_of(s2) matches Ok(f) && f.0 == 9i64 && f.1 == f4);
    assert(f4.mem.last() == Val::Chars(seq![c]));
    assert(f4.mem.drop_last() =~= m.update(0, Val::Num((p + 4) as i64)));
    assert(f4.mem.len() != f4.dsi);
    let s3 = State {
        mem: m.update(0, Val::Num((p + 4) as i64)).push(Val::Chars(echo_cell(c, pre.bc))),
        ..pre
    };
    assert(step_of(s2) == Outcome::Running(s3));
    assert(run_steps(pre, 3) == Outcome::Running(s3));
}

/// One ADD step of the echo idiom: with the instruction pointer at an ADD
/// and two texts atop the operand region, one step replaces them by their
/// concatenation in push order and advances the pointer.
pub proof fn lemma_concat_step(pre: State, p: i64, s: Seq<char>, t: Seq<char>)
    requires
        2 <= p,
        (p as int) < pre.mem.len() - 2,
        p + 1 <= i64::MAX as int,
        pre.mem[0] == Val::Num(p),
        pre.mem[p as int] == Val::Num(2),
        pre.mem[pre.mem.len() - 2] == Val::Chars(s),
        pre.mem[pre.mem.len() - 1] == Val::Chars(t),
        pre.dsi <= pre.mem.len() - 2,
    ensures
        run_steps(pre, 1) == Outcome::Running(
            State {
                mem: pre.mem.update(0, Val::Num((p + 1) as i64)).drop_last().drop_last().push(
                    Val::Chars(s + t),
                ),
                ..pre
            },
        ),
{
    let m = pre.mem;
    assert(run_steps(pre, 0) == Outcome::Running(pre));
    let f1 = State { mem: m.update(0, Val::Num((p + 1) as i64)), ..pre };
    assert(fetch_of(pre) matches Ok(f) && f.0 == 2i64 && f.1 == f1);
    assert(f1.mem.last() == Val::Chars(t));
    assert(f1.mem.len() != f1.dsi);
    let g1 = State { mem: f1.mem.drop_last(), ..pre };
    assert(g1.mem.last() == Val::Chars(s));
    assert(g1.mem.len() != g1.dsi);
    let g2 = State { mem: g1.mem.drop_last(), ..pre };
    let s1 = State { mem: g2.mem.push(Val::Chars(s + t)), ..pre };
    assert(step_of(pre) == Outcome::Running(s1));
    assert(run_steps(pre, 1) == Outcome::Running(s1));
}

/// The memory image the loader builds for a minimal echo source (compare
/// `lemma_loaded_program_region`): for each of the four character indices, a
/// literal push of the index, LOAD with base-cell selector 1, and CHAR; then
/// three ADDs; then the zero terminator.
pub open spec fn echo_image(inp: Seq<char>) -> Seq<Val> {
    seq![
        Val::Num(2),
        Val::Chars(inp),
        Val::Num(10),
        Val::Num(6),
        Val::Num(1),
        Val::Num(9),
        Val::Num(11),
        Val::Num(6),
        Val::Num(1),
        Val::Num(9),
        Val::Num(12),
        Val::Num(6),
        Val::Num(1),
        Val::Num(9),
        Val::Num(13),
        Val::Num(6),
        Val::Num(1),
        Val::Num(9),
        Val::Num(2),
        Val::Num(2),
        Val::Num(2),
        Val::Num(0),
    ]
}

/// End to end: the echo program reads the input register's characters back
/// one at a time via LOAD, passes each through CHAR, and concatenates via
/// ADD.  For every four-character input it halts after sixteen steps; in
/// standard mode the output is exactly the input, since CHAR is the identity
/// on textual values, and in backwards-compatible mode it is the HTML
/// numeric character reference wrap of each character, concatenated in
/// order.
#[verifier::rlimit(50)]
pub proof fn lemma_echo_program(inp: Seq<char>, dsi: int, debug: bool, bc: bool)
    requires
        inp.len() == 4,
        dsi <= 22,
    ensures
        ({
            let start = State { mem: echo_image(inp), dsi, debug, bc };
            let fin = State { mem: echo_image(inp).update(0, Val::Num(22)), dsi, debug, bc };
            let out = echo_cell(inp[0], bc) + echo_cell(inp[1], bc) + echo_cell(inp[2], bc)
                + echo_cell(inp[3], bc);
            &&& run_steps(start, 16) == Outcome::Done(out, fin)
            &&& (!bc ==> out == inp)
        }),
{
    let m0 = echo_image(inp);
    let e0 = echo_cell(inp[0], bc);
    let e1 = echo_cell(inp[1], bc);
    let e2 = echo_cell(inp[2], bc);
    let e3 = echo_cell(inp[3], bc);
    let start = State { mem: m0, dsi, debug, bc };
    assert(m0.len() == 22);
    // Four echo rounds, one per character.
    lemma_echo_round(start, 2, 0, inp);
    let s1 = State { mem: m0.update(0, Val::Num(6)).push(Val::Chars(e0)), ..start };
    assert(run_steps(start, 3) == Outcome::Running(s1));
    lemma_echo_round(s1, 6, 1, inp);
    lemma_run_steps_compose(start, s1, 3, 3);
    let s2 = State {
        mem: m0.update(0, Val::Num(10)).push(Val::Chars(e0)).push(Val::Chars(e1)),
        ..start
    };
    assert(s1.mem.update(0, Val::Num(10)).push(Val::Chars(e1)) =~= s2.mem);
    assert(run_steps(start, 6) == Outcome::Running(s2));
    lemma_echo_round(s2, 10, 2, inp);
    lemma_run_steps_compose(start, s2, 6, 3);
    let s3 = State {
        mem: m0.update(0, Val::Num(14)).push(Val::Chars(e0)).push(Val::Chars(e1)).push(
            Val::Chars(e2),
        ),
        ..start
    };
    assert(s2.mem.update(0, Val::Num(14)).push(Val::Chars(e2)) =~= s3.mem);
    assert(run_steps(start, 9) == Outcome::Running(s3));
    lemma_echo_round(s3, 14, 3, inp);
    lemma_run_steps_compose(start, s3, 9, 3);
    let s4 = State {
        mem: m0.update(0, Val::Num(18)).push(Val::Chars(e0)).push(Val::Chars(e1)).push(
            Val::Chars(e2),
        ).push(Val::Chars(e3)),
        ..start
    };
    assert(s3.mem.update(0, Val::Num(18)).push(Val::Chars(e3)) =~= s4.mem);
    assert(run_steps(start, 12) == Outcome::Running(s4));
    // Three ADDs concatenate the four one-character texts.
    assert(s4.mem.len() == 26);
    assert(s4.mem[24] == Val::Chars(e2));
    assert(s4.mem[25] == Val::Chars(e3));
    lemma_concat_step(s4, 18, e2, e3);
    lemma_run_steps_compose(start, s4, 12, 1);
    let s5 = State {
        mem: m0.update(0, Val::Num(19)).push(Val::Chars(e0)).push(Val::Chars(e1)).push(
            Val::Chars(e2 + e3),
        ),
        ..start
    };
    assert(s4.mem.update(0, Val::Num(19)).drop_last().drop_last().push(Val::Chars(e2 + e3))
        =~= s5.mem);
    assert(run_steps(start, 13) == Outcome::Running(s5));
    assert(s5.mem.len() == 25);
    assert(s5.mem[23] == Val::Chars(e1));
    assert(s5.mem[24] == Val::Chars(e2 + e3));
    lemma_concat_step(s5, 19, e1, e2 + e3);
    lemma_run_steps_compose(start, s5, 13, 1);
    let s6 = State {
        mem: m0.update(0, Val::Num(20)).push(Val::Chars(e0)).push(Val::Chars(e1 + (e2 + e3))),
        ..start
    };
    assert(s5.mem.update(0, Val::Num(20)).drop_last().drop_last().push(
        Val::Chars(e1 + (e2 + e3)),
    ) =~= s6.mem);
    assert(run_steps(start, 14) == Outcome::Running(s6));
    assert(s6.mem.len() == 24);
    assert(s6.mem[22] == Val::Chars(e0));
    assert(s6.mem[23] == Val::Chars(e1 + (e2 + e3)));
    lemma_concat_step(s6, 20, e0, e1 + (e2 + e3));
    lemma_run_steps_compose(start, s6, 14, 1);
    let ee = e0 + (e1 + (e2 + e3));
    let s7 = State { mem: m0.update(0, Val::Num(21)).push(Val::Chars(ee)), ..start };
    assert(s6.mem.update(0, Val::Num(21)).drop_last().drop_last().push(Val::Chars(ee))
        =~= s7.mem);
    assert(run_steps(start, 15) == Outcome::Running(s7));
    // The terminator halts the machine, which pops and renders the result.
    assert(s7.mem.len() == 23);
    assert(s7.mem[0] == Val::Num(21));
    assert(s7.mem[21] == Val::Num(0));
    let f = State { mem: s7.mem.update(0, Val::Num(22)), ..start };
    assert(fetch_of(s7) matches Ok(ff) && ff.0 == 0i64 && ff.1 == f);
    assert(f.mem.last() == Val::Chars(ee));
    assert(f.mem.len() != f.dsi);
    let fin = State { mem: m0.update(0, Val::Num(22)), ..start };
    assert(f.mem.drop_last() =~= fin.mem);
    assert(pop_of(f) == Ok::<(Val, State), Error>((Val::Chars(ee), fin)));
    assert(step_of(s7) == Outcome::Done(ee, fin));
    lemma_run_steps_compose(start, s7, 15, 1);
    assert(run_steps(start, 16) == Outcome::Done(ee, fin));
    let out = e0 + e1 + e2 + e3;
    assert(ee =~= out);
    if !bc {
        assert(out =~= inp);
    }
}

proof fn lemma_terminal_persists(s: State, n: nat, k: nat)
    requires
        !(run_steps(s, n) is Running),
        n <= k,
    ensures
        run_steps(s, k) == run_steps(s, n),
    decreases k,
{
    if k > n {
        lemma_terminal_persists(s, n, (k - 1) as nat);
    }
}

/// Determinism: from one starting state — that is, for one (source, input,
/// mode flags) triple — every step count that reaches a halt or a failure
/// reaches the same one, so two runs of the same program produce identical
/// output.
pub proof fn lemma_run_deterministic(s: State, n1: nat, n2: nat)
    requires
        !(run_steps(s, n1) is Running),
        !(run_steps(s, n2) is Running),
    ensures
        run_steps(s, n1) == run_steps(s, n2),
{
    if n1 <= n2 {
        lemma_terminal_persists(s, n1, n2);
    } else {
        lemma_terminal_persists(s, n2, n1);
    }
}

} // verus!
