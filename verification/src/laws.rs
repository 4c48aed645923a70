//! General properties of the normalizer, proved once and for all inputs:
//! how a run splits over concatenation, that balanced braces return the
//! indentation to zero, that runs of spaces collapse to one, that comment
//! text is copied verbatim, and that normalization is idempotent on every
//! input whose run never meets the three space-accounting corner cases.

use vstd::prelude::*;
use crate::normalizer::NormState;
use crate::normalizer::init_state;
use crate::normalizer::indent_chars;
use crate::normalizer::advance;
use crate::normalizer::emit;
use crate::normalizer::next_state;
use crate::normalizer::run;
use crate::normalizer::trim_char;
use crate::normalizer::trim_trailing;
use crate::normalizer::raw_output;
use crate::normalizer::normalized;
use crate::normalizer::lemma_indent_chars;

verus! {

/// A run on the concatenation `u + v` agrees with the run on `u` followed by
/// the run on `v` from the intermediate state.  The one proviso concerns the
/// boundary: when `u` ends in `/` and `v` begins with `/`, the two slashes
/// would be read as one comment opener in `u + v` but not in the split runs —
/// unless the run on `u` ends inside a comment, where the final `/` was
/// copied verbatim and no lookahead was taken.
proof fn lemma_run_concat(u: Seq<char>, v: Seq<char>, i: int, st: NormState)
    requires
        0 <= i <= u.len(),
        (u.len() > 0 && u.last() == '/' && v.len() > 0 && v[0] == '/') ==> run(u, i, st).1.comment,
    ensures
        run(u + v, i, st).0 == run(u, i, st).0 + run(v, 0, run(u, i, st).1).0,
        run(u + v, i, st).1 == run(v, 0, run(u, i, st).1).1,
    decreases u.len() - i,
{
    let w = u + v;
    if v.len() == 0 {
        assert(w =~= u);
        assert(run(u, i, st).0 + Seq::<char>::empty() =~= run(u, i, st).0);
    } else if i == u.len() {
        lemma_run_shift(u, v, 0, st);
        assert(Seq::<char>::empty() + run(v, 0, st).0 =~= run(v, 0, st).0);
    } else {
        let c = u[i];
        assert(w[i] == c);
        let nxu = if i + 1 < u.len() {
            Some(u[i + 1])
        } else {
            None
        };
        let nxw = if i + 1 < w.len() {
            Some(w[i + 1])
        } else {
            None
        };
        if i + 1 < u.len() {
            assert(w[i + 1] == u[i + 1]);
        } else {
            assert(w[i + 1] == v[0]);
        }
        if i + 1 == u.len() && c == '/' && !st.comment && v[0] == '/' {
            let st1 = next_state(st, c, nxu);
            assert(run(u, i, st).1 == run(u, i + 1, st1).1);
            assert(run(u, i + 1, st1).1 == st1);
            assert(!st1.comment);
            assert(u.last() == c);
            assert(false);
        }
        let a = advance(st, c, nxw);
        let st1 = next_state(st, c, nxw);
        assert(advance(st, c, nxu) == a);
        assert(next_state(st, c, nxu) =~= st1);
        assert(emit(st, c, nxu) =~= emit(st, c, nxw));
        assert(run(u, i, st).1 == run(u, i + a, st1).1);
        lemma_run_concat(u, v, i + a, st1);
        let mid = run(u, i + a, st1).1;
        assert(emit(st, c, nxw) + (run(u, i + a, st1).0 + run(v, 0, mid).0) =~= (emit(st, c, nxw)
            + run(u, i + a, st1).0) + run(v, 0, mid).0);
    }
}

/// Positions past `u` in `u + v` behave exactly as the same positions of `v`.
proof fn lemma_run_shift(u: Seq<char>, v: Seq<char>, k: int, st: NormState)
    requires
        0 <= k <= v.len(),
    ensures
        run(u + v, u.len() + k, st).0 == run(v, k, st).0,
        run(u + v, u.len() + k, st).1 == run(v, k, st).1,
    decreases v.len() - k,
{
    let w = u + v;
    if k < v.len() {
        let c = v[k];
        assert(w[u.len() + k] == c);
        let nxv = if k + 1 < v.len() {
            Some(v[k + 1])
        } else {
            None
        };
        if k + 1 < v.len() {
            assert(w[u.len() + k + 1] == v[k + 1]);
        }
        let a = advance(st, c, nxv);
        lemma_run_shift(u, v, k + a, next_state(st, c, nxv));
    }
}

/// Spaces read while the last emitted character is already a space are
/// dropped without emission or any state change.
proof fn lemma_skip_spaces(t: Seq<char>, j: int, k: int, st: NormState)
    requires
        !st.comment,
        st.prev == Some(' '),
        0 <= j,
        0 <= k,
        j + k <= t.len(),
        forall|m: int| j <= m < j + k ==> t[m] == ' ',
    ensures
        run(t, j, st).0 == run(t, j + k, st).0,
        run(t, j, st).1 == run(t, j + k, st).1,
    decreases k,
{
    if k > 0 {
        assert(t[j] == ' ');
        let nx = if j + 1 < t.len() {
            Some(t[j + 1])
        } else {
            None
        };
        assert(emit(st, ' ', nx) =~= Seq::<char>::empty());
        assert(next_state(st, ' ', nx) =~= st);
        lemma_skip_spaces(t, j + 1, k - 1, st);
        assert(Seq::<char>::empty() + run(t, j + 1, st).0 =~= run(t, j + 1, st).0);
    }
}

/// Appending trailing whitespace does not change the trimmed value.
proof fn lemma_trim_append_ws(u: Seq<char>, w: Seq<char>)
    requires
        forall|m: int| 0 <= m < w.len() ==> trim_char(w[m]),
    ensures
        trim_trailing(u + w) == trim_trailing(u),
    decreases w.len(),
{
    if w.len() == 0 {
        assert(u + w =~= u);
    } else {
        assert((u + w).last() == w.last());
        assert((u + w).drop_last() =~= u + w.drop_last());
        lemma_trim_append_ws(u, w.drop_last());
    }
}

/// The trimmed value is a prefix; everything after it is whitespace; and the
/// trimmed value itself does not end in whitespace.
proof fn lemma_trim_is_prefix(t: Seq<char>)
    ensures
        trim_trailing(t) == t.take(trim_trailing(t).len() as int),
        trim_trailing(t).len() <= t.len(),
        forall|m: int| trim_trailing(t).len() <= m < t.len() ==> trim_char(t[m]),
        trim_trailing(t).len() == 0 || !trim_char(trim_trailing(t).last()),
    decreases t.len(),
{
    if t.len() > 0 && trim_char(t.last()) {
        lemma_trim_is_prefix(t.drop_last());
        let l = trim_trailing(t).len() as int;
        assert(t.drop_last().take(l) =~= t.take(l));
        assert forall|m: int| l <= m < t.len() implies trim_char(t[m]) by {
            if m < t.len() - 1 {
                assert(t.drop_last()[m] == t[m]);
            } else {
                assert(t[m] == t.last());
            }
        }
    } else {
        assert(t.take(t.len() as int) =~= t);
    }
}

/// Whatever the automaton emits for whitespace input is itself whitespace.
proof fn lemma_run_ws(v: Seq<char>, k: int, st: NormState)
    requires
        0 <= k <= v.len(),
        forall|m: int| k <= m < v.len() ==> trim_char(v[m]),
    ensures
        forall|m: int| 0 <= m < run(v, k, st).0.len() ==> trim_char(run(v, k, st).0[m]),
    decreases v.len() - k,
{
    if k < v.len() {
        let c = v[k];
        assert(trim_char(c));
        let nx = if k + 1 < v.len() {
            Some(v[k + 1])
        } else {
            None
        };
        let e = emit(st, c, nx);
        let st1 = next_state(st, c, nx);
        assert(advance(st, c, nx) == 1);
        lemma_run_ws(v, k + 1, st1);
        lemma_indent_chars(st.indent);
        assert forall|m: int| 0 <= m < run(v, k, st).0.len() implies trim_char(
            run(v, k, st).0[m],
        ) by {
            if m < e.len() {
                assert(run(v, k, st).0[m] == e[m]);
                assert(trim_char(e[m]));
            } else {
                assert(run(v, k, st).0[m] == run(v, k + 1, st1).0[m - e.len()]);
            }
        }
    }
}

/// The brace-counting view of a text: the comment and lookahead state evolve
/// exactly as in the run, while a plain counter follows `{` and `}` outside
/// comments.  The text is balanced when the counter never goes below zero at
/// a closing brace and ends at zero.
pub open spec fn balanced_from(s: Seq<char>, i: int, st: NormState, depth: int) -> bool
    decreases s.len() - i,
{
    if i < 0 || i >= s.len() {
        depth == 0
    } else {
        let c = s[i];
        let nx = if i + 1 < s.len() {
            Some(s[i + 1])
        } else {
            None
        };
        if !st.comment && c == '{' {
            balanced_from(s, i + advance(st, c, nx), next_state(st, c, nx), depth + 1)
        } else if !st.comment && c == '}' {
            depth >= 1 && balanced_from(s, i + advance(st, c, nx), next_state(st, c, nx), depth - 1)
        } else {
            balanced_from(s, i + advance(st, c, nx), next_state(st, c, nx), depth)
        }
    }
}

/// The text's braces outside comments are balanced.
pub open spec fn braces_balanced(s: Seq<char>) -> bool {
    balanced_from(s, 0, init_state(), 0)
}

proof fn lemma_balance_run(s: Seq<char>, i: int, st: NormState, depth: int)
    requires
        0 <= i <= s.len(),
        balanced_from(s, i, st, depth),
        st.indent == depth,
    ensures
        run(s, i, st).1.indent == 0,
    decreases s.len() - i,
{
    if i < s.len() {
        let c = s[i];
        let nx = if i + 1 < s.len() {
            Some(s[i + 1])
        } else {
            None
        };
        let st1 = next_state(st, c, nx);
        if !st.comment && c == '{' {
            lemma_balance_run(s, i + advance(st, c, nx), st1, depth + 1);
        } else if !st.comment && c == '}' {
            lemma_balance_run(s, i + advance(st, c, nx), st1, depth - 1);
        } else {
            lemma_balance_run(s, i + advance(st, c, nx), st1, depth);
        }
    }
}

/// Brace balance: when the braces of `s` outside comments are balanced, the
/// indentation after the whole pass has returned to level zero, so the
/// closing `}` of the outermost group stands at the left margin.
pub proof fn lemma_brace_balance(s: Seq<char>)
    requires
        braces_balanced(s),
    ensures
        run(s, 0, init_state()).1.indent == 0,
{
    lemma_balance_run(s, 0, init_state(), 0);
}

/// A run of `k` space characters.
pub open spec fn spaces(k: nat) -> Seq<char>
    decreases k,
{
    if k == 0 {
        Seq::empty()
    } else {
        seq![' '] + spaces((k - 1) as nat)
    }
}

proof fn lemma_spaces_chars(k: nat)
    ensures
        spaces(k).len() == k,
        forall|m: int| 0 <= m < k ==> spaces(k)[m] == ' ',
    decreases k,
{
    if k > 0 {
        lemma_spaces_chars((k - 1) as nat);
    }
}

/// Processing any positive number of spaces outside a comment emits at most
/// one space — exactly one when the last emitted character was not already a
/// space — and leaves the state with a space as last emission.
proof fn lemma_run_spaces(k: nat, st: NormState)
    requires
        k >= 1,
        !st.comment,
    ensures
        run(spaces(k), 0, st).0 == run(spaces(1), 0, st).0,
        run(spaces(k), 0, st).1 == run(spaces(1), 0, st).1,
        run(spaces(1), 0, st).1 =~= (NormState { prev: Some(' '), ..st }),
    decreases k,
{
    lemma_spaces_chars(k);
    lemma_spaces_chars(1);
    let v = spaces(k);
    let stp = NormState { prev: Some(' '), ..st };
    if st.prev == Some(' ') {
        assert(stp =~= st);
        lemma_skip_spaces(v, 0, k as int, st);
        lemma_skip_spaces(spaces(1), 0, 1, st);
    } else {
        let nx = if 1 < v.len() {
            Some(v[1])
        } else {
            None
        };
        assert(v[0] == ' ');
        assert(emit(st, ' ', nx) =~= seq![' ']);
        assert(next_state(st, ' ', nx) =~= stp);
        assert(run(v, 0, st).0 == seq![' '] + run(v, 1, stp).0);
        assert(run(v, 0, st).1 == run(v, 1, stp).1);
        lemma_skip_spaces(v, 1, k as int - 1, stp);
        assert(run(v, k as int, stp).0 =~= Seq::<char>::empty());
        assert(run(v, 0, st).0 =~= seq![' ']);
        let w1 = spaces(1);
        assert(w1.len() == 1 && w1[0] == ' ');
        let nx1 = None::<char>;
        assert(emit(st, ' ', nx1) =~= seq![' ']);
        assert(next_state(st, ' ', nx1) =~= stp);
        assert(run(w1, 0, st).0 == seq![' '] + run(w1, 1, stp).0);
        assert(run(w1, 0, st).0 =~= seq![' ']);
        assert(run(w1, 0, st).1 == stp);
    }
}

/// Space collapsing: a run of one or more spaces read outside a comment
/// contributes exactly what a single space contributes, so the canonical
/// form of a text does not change when such a run is shortened to one
/// space.  (The single spaces that the `(`, `)` and `:` rules emit are
/// their own, fixed emissions and are untouched by this.)
pub proof fn lemma_space_collapsing(u: Seq<char>, v: Seq<char>, k: nat)
    requires
        k >= 1,
        !run(u, 0, init_state()).1.comment,
    ensures
        normalized(u + spaces(k) + v) == normalized(u + spaces(1) + v),
{
    lemma_spaces_chars(k);
    lemma_spaces_chars(1);
    let mid = run(u, 0, init_state()).1;
    lemma_run_spaces(k, mid);
    let stp = run(spaces(1), 0, mid).1;
    lemma_both_sides(u, v, k);
    lemma_both_sides(u, v, 1);
}

/// Splits `run(u + spaces(k) + v)` into the three constituent runs.
proof fn lemma_both_sides(u: Seq<char>, v: Seq<char>, k: nat)
    requires
        k >= 1,
    ensures
        run(u + spaces(k) + v, 0, init_state()).0 == run(u, 0, init_state()).0 + run(
            spaces(k),
            0,
            run(u, 0, init_state()).1,
        ).0 + run(v, 0, run(spaces(k), 0, run(u, 0, init_state()).1).1).0,
        run(u + spaces(k) + v, 0, init_state()).1 == run(
            v,
            0,
            run(spaces(k), 0, run(u, 0, init_state()).1).1,
        ).1,
{
    lemma_spaces_chars(k);
    let mid = run(u, 0, init_state()).1;
    lemma_run_concat(u, spaces(k) + v, 0, init_state());
    lemma_run_concat(spaces(k), v, 0, mid);
    assert(u + spaces(k) + v =~= u + (spaces(k) + v));
    assert(run(u, 0, init_state()).0 + (run(spaces(k), 0, mid).0 + run(
        v,
        0,
        run(spaces(k), 0, mid).1,
    ).0) =~= run(u, 0, init_state()).0 + run(spaces(k), 0, mid).0 + run(
        v,
        0,
        run(spaces(k), 0, mid).1,
    ).0);
}

/// Characters read inside a comment are copied to the output verbatim, and
/// the comment stays open until a newline is read.
proof fn lemma_run_comment_verbatim(v: Seq<char>, k: int, st: NormState)
    requires
        0 <= k <= v.len(),
        st.comment,
        forall|m: int| k <= m < v.len() ==> v[m] != '\n',
    ensures
        run(v, k, st).0 == v.skip(k),
        run(v, k, st).1.comment,
        run(v, k, st).1.indent == st.indent,
    decreases v.len() - k,
{
    if k == v.len() {
        assert(v.skip(k) =~= Seq::<char>::empty());
    } else {
        let c = v[k];
        let nx = if k + 1 < v.len() {
            Some(v[k + 1])
        } else {
            None
        };
        assert(emit(st, c, nx) =~= seq![c]);
        let st1 = next_state(st, c, nx);
        assert(st1.comment);
        lemma_run_comment_verbatim(v, k + 1, st1);
        assert(seq![c] + v.skip(k + 1) =~= v.skip(k));
    }
}

/// Comment preservation: once a run ends inside a line comment, appending
/// comment text (anything without a newline) appends it to the output
/// verbatim — `;`, `{`, `}`, `:`, `(`, `)` and `/` in it trigger no
/// formatting action — and the indentation level is unchanged by it.
pub proof fn lemma_comment_preserved(u: Seq<char>, v: Seq<char>)
    requires
        run(u, 0, init_state()).1.comment,
        forall|m: int| 0 <= m < v.len() ==> v[m] != '\n',
    ensures
        run(u + v, 0, init_state()).0 == run(u, 0, init_state()).0 + v,
        run(u + v, 0, init_state()).1.comment,
        run(u + v, 0, init_state()).1.indent == run(u, 0, init_state()).1.indent,
{
    let mid = run(u, 0, init_state()).1;
    lemma_run_concat(u, v, 0, init_state());
    if v.len() > 0 {
        lemma_run_comment_verbatim(v, 0, mid);
        assert(v.skip(0) =~= v);
    } else {
        assert(run(u, 0, init_state()).0 + run(v, 0, mid).0 =~= run(u, 0, init_state()).0 + v);
    }
}

/// The inputs on which a second pass retraces the first one exactly.
///
/// Three rules emit a character whose spacing a second pass would account
/// differently, and each is excluded at the step where it would fire,
/// outside comments only:
/// - a `)` read while the last emitted character is not a space (the `)`
///   rule prepends its own space unconditionally, so a second pass, seeing
///   that space in the output, would add another);
/// - a `}` closing to a still-indented level while the last emitted
///   character is not a space (the `}` rule starts a fresh indented line
///   before the brace, and a second pass turns that indentation into one
///   stray space after the last character);
/// - a `/` read immediately after an emitted `/` (the two would sit
///   adjacent in the output and be read back as a comment opener).
pub open spec fn renorm_ok(s: Seq<char>, i: int, st: NormState) -> bool
    decreases s.len() - i,
{
    if i < 0 || i >= s.len() {
        true
    } else {
        let c = s[i];
        let nx = if i + 1 < s.len() {
            Some(s[i + 1])
        } else {
            None
        };
        let here = st.comment || ((c == ')' ==> st.prev == Some(' ')) && ((c == '}' && st.indent
            >= 2) ==> st.prev == Some(' ')) && (c == '/' ==> st.prev != Some('/')));
        here && renorm_ok(s, i + advance(st, c, nx), next_state(st, c, nx))
    }
}

/// The whole text is free of the three corner cases of [`renorm_ok`].
pub open spec fn renormalizable(s: Seq<char>) -> bool {
    renorm_ok(s, 0, init_state())
}

/// One definitional unfolding of [`run`].
proof fn lemma_run_step(t: Seq<char>, j: int, st: NormState)
    requires
        0 <= j < t.len(),
    ensures
        ({
            let nx = if j + 1 < t.len() {
                Some(t[j + 1])
            } else {
                None
            };
            run(t, j, st).0 == emit(st, t[j], nx) + run(
                t,
                j + advance(st, t[j], nx),
                next_state(st, t[j], nx),
            ).0 && run(t, j, st).1 == run(t, j + advance(st, t[j], nx), next_state(st, t[j], nx)).1
        }),
{
}

/// After an emitted `/`, the next character the run emits — if it emits
/// anything at all — is not another `/`: the only rule that could emit one
/// next is the `/` rule itself, and [`renorm_ok`] rules that step out.
proof fn lemma_first_emitted_not_slash(s: Seq<char>, i: int, st: NormState)
    requires
        0 <= i <= s.len(),
        renorm_ok(s, i, st),
        !st.comment,
        st.prev == Some('/'),
    ensures
        run(s, i, st).0.len() == 0 || run(s, i, st).0[0] != '/',
    decreases s.len() - i,
{
    if i < s.len() {
        let c = s[i];
        let nx = if i + 1 < s.len() {
            Some(s[i + 1])
        } else {
            None
        };
        let e = emit(st, c, nx);
        let st1 = next_state(st, c, nx);
        let a = advance(st, c, nx);
        let rest = run(s, i + a, st1).0;
        if e.len() == 0 {
            assert(st1 =~= st);
            lemma_first_emitted_not_slash(s, i + a, st1);
            assert(Seq::<char>::empty() + rest =~= rest);
        } else {
            assert(c != '/');
            lemma_indent_chars((st.indent + 1) as nat);
            if st.indent > 0 {
                lemma_indent_chars((st.indent - 1) as nat);
            }
            assert(e[0] != '/');
            assert((e + rest)[0] == e[0]);
        }
    }
}

/// The second pass, standing at position `j` of a text whose next
/// characters are exactly one step's emission of the first pass, consumes
/// that whole emission, emits it back unchanged, and reaches the first
/// pass's next state.
#[verifier::rlimit(100)]
proof fn lemma_retrace_chunk(t: Seq<char>, j: int, st: NormState, c: char, nx: Option<char>)
    requires
        0 <= j,
        j + emit(st, c, nx).len() <= t.len(),
        emit(st, c, nx).len() > 0,
        forall|m: int| 0 <= m < emit(st, c, nx).len() ==> t[j + m] == emit(st, c, nx)[m],
        !st.comment ==> (c == ')' ==> st.prev == Some(' ')),
        !st.comment ==> ((c == '}' && st.indent >= 2) ==> st.prev == Some(' ')),
        (!st.comment && c == '/' && nx != Some('/')) ==> (j + 1 == t.len() || t[j + 1] != '/'),
    ensures
        run(t, j, st).0 == emit(st, c, nx) + run(
            t,
            j + emit(st, c, nx).len(),
            next_state(st, c, nx),
        ).0,
        run(t, j, st).1 == run(t, j + emit(st, c, nx).len(), next_state(st, c, nx)).1,
{
    let e = emit(st, c, nx);
    let st1 = next_state(st, c, nx);
    let ind = st.indent;
    lemma_indent_chars(ind);
    lemma_indent_chars((ind + 1) as nat);
    if ind > 0 {
        lemma_indent_chars((ind - 1) as nat);
    }
    assert(t[j + 0] == e[0]);
    if e.len() > 1 {
        assert(t[j + 1] == e[1]);
    }
    if st.comment {
        if c == '\n' {
            // one newline step emits the break and the indentation;
            // the indentation's own copy in `t` is then skipped.
            assert(e[0] == '\n');
            lemma_run_step(t, j, st);
            let nxt = if j + 1 < t.len() {
                Some(t[j + 1])
            } else {
                None
            };
            assert(emit(st, '\n', nxt) =~= e);
            assert(next_state(st, '\n', nxt) =~= st1);
            if ind > 0 {
                assert(st1.prev == Some(' '));
                assert forall|m: int| j + 1 <= m < j + 1 + 4 * ind implies t[m] == ' ' by {
                    assert(t[j + (m - j)] == e[m - j]);
                    assert(e[m - j] == indent_chars(ind)[m - j - 1]);
                }
                lemma_skip_spaces(t, j + 1, 4 * ind as int, st1);
            }
        } else {
            assert(e[0] == c);
            lemma_run_step(t, j, st);
            let nxt = if j + 1 < t.len() {
                Some(t[j + 1])
            } else {
                None
            };
            assert(emit(st, c, nxt) =~= e);
            assert(next_state(st, c, nxt) =~= st1);
        }
    } else if c == '{' {
        assert(e[0] == '{');
        assert(e[1] == '\n');
        lemma_run_step(t, j, st);
        let nxt = if j + 1 < t.len() {
            Some(t[j + 1])
        } else {
            None
        };
        assert(emit(st, '{', nxt) =~= e);
        assert(next_state(st, '{', nxt) =~= st1);
        lemma_run_step(t, j + 1, st1);
        let nxt1 = if j + 2 < t.len() {
            Some(t[j + 2])
        } else {
            None
        };
        assert(emit(st1, '\n', nxt1) =~= Seq::<char>::empty());
        assert(next_state(st1, '\n', nxt1) =~= st1);
        assert(st1.prev == Some(' '));
        assert forall|m: int| j + 2 <= m < j + 2 + 4 * (ind + 1) implies t[m] == ' ' by {
            assert(t[j + (m - j)] == e[m - j]);
            assert(e[m - j] == indent_chars((ind + 1) as nat)[m - j - 2]);
        }
        lemma_skip_spaces(t, j + 2, 4 * (ind + 1) as int, st1);
        assert(Seq::<char>::empty() + run(t, j + e.len(), st1).0 =~= run(t, j + e.len(), st1).0);
    } else if c == '}' {
        assert(ind > 0);
        let l = (ind - 1) as nat;
        let lead = seq!['\n'] + indent_chars(l);
        let brace = seq!['}', '\n'];
        assert(e == lead + brace + indent_chars(l));
        assert(e.len() == 3 + 8 * l);
        // the leading break of the chunk is dropped by the second pass …
        assert(e[0] == '\n');
        lemma_run_step(t, j, st);
        let nxt = if j + 1 < t.len() {
            Some(t[j + 1])
        } else {
            None
        };
        assert(emit(st, '\n', nxt) =~= Seq::<char>::empty());
        assert(next_state(st, '\n', nxt) =~= st);
        // … its indentation is skipped (the step's admissibility gives the
        // needed preceding space when the level stays positive) …
        if l > 0 {
            assert(st.prev == Some(' '));
            assert forall|m: int| j + 1 <= m < j + 1 + 4 * l implies t[m] == ' ' by {
                assert(t[j + (m - j)] == e[m - j]);
                assert(e[m - j] == (lead + brace)[m - j]);
                assert((lead + brace)[m - j] == lead[m - j]);
                assert(lead[m - j] == indent_chars(l)[m - j - 1]);
            }
            lemma_skip_spaces(t, j + 1, 4 * l as int, st);
        }
        let jb = j + 1 + 4 * l;
        // … the brace itself re-emits the whole chunk …
        assert(t[j + (1 + 4 * l as int)] == e[1 + 4 * l as int]);
        assert(e[1 + 4 * l as int] == (lead + brace)[1 + 4 * l as int]);
        assert((lead + brace)[1 + 4 * l as int] == brace[0]);
        assert(t[jb] == '}');
        lemma_run_step(t, jb, st);
        let nxb = if jb + 1 < t.len() {
            Some(t[jb + 1])
        } else {
            None
        };
        assert(emit(st, '}', nxb) =~= e);
        assert(next_state(st, '}', nxb) =~= st1);
        // … and the chunk's trailing break and indentation are consumed
        // without emission.
        assert(t[j + (2 + 4 * l as int)] == e[2 + 4 * l as int]);
        assert(e[2 + 4 * l as int] == (lead + brace)[2 + 4 * l as int]);
        assert((lead + brace)[2 + 4 * l as int] == brace[1]);
        assert(t[jb + 1] == '\n');
        lemma_run_step(t, jb + 1, st1);
        let nxb1 = if jb + 2 < t.len() {
            Some(t[jb + 2])
        } else {
            None
        };
        assert(emit(st1, '\n', nxb1) =~= Seq::<char>::empty());
        assert(next_state(st1, '\n', nxb1) =~= st1);
        if l > 0 {
            assert(st1.prev == Some(' '));
            assert forall|m: int| jb + 2 <= m < jb + 2 + 4 * l implies t[m] == ' ' by {
                assert(t[j + (m - j)] == e[m - j]);
                assert(e[m - j] == indent_chars(l)[m - j - (3 + 4 * l)]);
            }
            lemma_skip_spaces(t, jb + 2, 4 * l as int, st1);
        }
        assert(run(t, j, st).0 == run(t, jb, st).0);
        assert(run(t, jb, st).0 == e + run(t, jb + 1, st1).0);
        assert(run(t, jb + 1, st1).0 == run(t, j + e.len(), st1).0);
    } else if c == ';' {
        assert(e[0] == ';');
        assert(e[1] == '\n');
        lemma_run_step(t, j, st);
        let nxt = if j + 1 < t.len() {
            Some(t[j + 1])
        } else {
            None
        };
        assert(emit(st, ';', nxt) =~= e);
        assert(next_state(st, ';', nxt) =~= st1);
        lemma_run_step(t, j + 1, st1);
        let nxt1 = if j + 2 < t.len() {
            Some(t[j + 2])
        } else {
            None
        };
        assert(emit(st1, '\n', nxt1) =~= Seq::<char>::empty());
        assert(next_state(st1, '\n', nxt1) =~= st1);
        if ind > 0 {
            assert(st1.prev == Some(' '));
            assert forall|m: int| j + 2 <= m < j + 2 + 4 * ind implies t[m] == ' ' by {
                assert(t[j + (m - j)] == e[m - j]);
                assert(e[m - j] == indent_chars(ind)[m - j - 2]);
            }
            lemma_skip_spaces(t, j + 2, 4 * ind as int, st1);
        }
        assert(Seq::<char>::empty() + run(t, j + e.len(), st1).0 =~= run(t, j + e.len(), st1).0);
    } else if c == ':' || c == '(' {
        assert(e[0] == c);
        assert(e[1] == ' ');
        lemma_run_step(t, j, st);
        let nxt = if j + 1 < t.len() {
            Some(t[j + 1])
        } else {
            None
        };
        assert(emit(st, c, nxt) =~= e);
        assert(next_state(st, c, nxt) =~= st1);
        assert(st1.prev == Some(' '));
        assert forall|m: int| j + 1 <= m < j + 2 implies t[m] == ' ' by {
            assert(t[j + (m - j)] == e[m - j]);
        }
        lemma_skip_spaces(t, j + 1, 1, st1);
    } else if c == ')' {
        // the chunk's leading space is absorbed by the space rule, and the
        // closing parenthesis re-emits both characters.
        assert(e[0] == ' ');
        assert(e[1] == ')');
        assert(st.prev == Some(' '));
        lemma_run_step(t, j, st);
        let nxt = if j + 1 < t.len() {
            Some(t[j + 1])
        } else {
            None
        };
        assert(emit(st, ' ', nxt) =~= Seq::<char>::empty());
        assert(next_state(st, ' ', nxt) =~= st);
        lemma_run_step(t, j + 1, st);
        let nxt1 = if j + 2 < t.len() {
            Some(t[j + 2])
        } else {
            None
        };
        assert(emit(st, ')', nxt1) =~= e);
        assert(next_state(st, ')', nxt1) =~= st1);
        assert(Seq::<char>::empty() + (e + run(t, j + 2, st1).0) =~= e + run(t, j + 2, st1).0);
    } else if c == '/' {
        if nx == Some('/') {
            assert(e[0] == '/');
            assert(e[1] == '/');
            lemma_run_step(t, j, st);
            let nxt = if j + 1 < t.len() {
                Some(t[j + 1])
            } else {
                None
            };
            assert(nxt == Some('/'));
            assert(emit(st, '/', nxt) =~= e);
            assert(next_state(st, '/', nxt) =~= st1);
            assert(advance(st, '/', nxt) == 2);
        } else {
            assert(e[0] == '/');
            lemma_run_step(t, j, st);
            let nxt = if j + 1 < t.len() {
                Some(t[j + 1])
            } else {
                None
            };
            assert(nxt != Some('/'));
            assert(emit(st, '/', nxt) =~= e);
            assert(next_state(st, '/', nxt) =~= st1);
        }
    } else {
        // the space rule (when it emits) and the default rule copy one
        // character; the second pass meets the same character in the same
        // state and does the same.
        assert(e[0] == c);
        lemma_run_step(t, j, st);
        let nxt = if j + 1 < t.len() {
            Some(t[j + 1])
        } else {
            None
        };
        assert(emit(st, c, nxt) =~= e);
        assert(next_state(st, c, nxt) =~= st1);
    }
}

/// The simulation behind idempotence: when the remaining text of `t` is
/// exactly what the first pass still emits from position `i` of `s`, the
/// second pass re-emits that text unchanged and finishes in the first
/// pass's final state.
proof fn lemma_retrace(s: Seq<char>, t: Seq<char>, i: int, j: int, st: NormState)
    requires
        0 <= i <= s.len(),
        0 <= j <= t.len(),
        renorm_ok(s, i, st),
        t.skip(j) == run(s, i, st).0,
    ensures
        run(t, j, st).0 == t.skip(j),
        run(t, j, st).1 == run(s, i, st).1,
    decreases s.len() - i,
{
    if i == s.len() {
        assert(t.skip(j).len() == 0);
        assert(j == t.len());
    } else {
        let c = s[i];
        let nx = if i + 1 < s.len() {
            Some(s[i + 1])
        } else {
            None
        };
        let e = emit(st, c, nx);
        let st1 = next_state(st, c, nx);
        let a = advance(st, c, nx);
        let rest = run(s, i + a, st1).0;
        assert(run(s, i, st).0 == e + rest);
        assert(renorm_ok(s, i + a, st1));
        assert(t.skip(j).len() == t.len() - j);
        if e.len() == 0 {
            assert(st1 =~= st);
            assert(Seq::<char>::empty() + rest =~= rest);
            lemma_retrace(s, t, i + a, j, st1);
        } else {
            assert forall|m: int| 0 <= m < e.len() implies t[j + m] == e[m] by {
                assert(t.skip(j)[m] == t[j + m]);
                assert((e + rest)[m] == e[m]);
            }
            if !st.comment && c == '/' && nx != Some('/') {
                assert(st1.prev == Some('/'));
                assert(!st1.comment);
                lemma_first_emitted_not_slash(s, i + a, st1);
                if j + 1 < t.len() {
                    assert(t.skip(j)[1] == t[j + 1]);
                    assert((e + rest)[1] == rest[0]);
                    assert(t[j + 1] != '/');
                }
            }
            lemma_retrace_chunk(t, j, st, c, nx);
            assert(t.skip(j + e.len()) =~= rest) by {
                assert forall|m: int| 0 <= m < t.len() - (j + e.len()) implies t.skip(
                    j + e.len(),
                )[m] == rest[m] by {
                    assert(t.skip(j + e.len())[m] == t[j + e.len() + m]);
                    assert(t.skip(j)[e.len() + m] == t[j + (e.len() + m)]);
                    assert((e + rest)[e.len() + m] == rest[m]);
                }
                assert(t.skip(j + e.len()).len() == rest.len());
            }
            lemma_retrace(s, t, i + a, j + e.len(), st1);
            assert(e + t.skip(j + e.len()) =~= t.skip(j));
        }
    }
}

/// Idempotence: normalizing an already-normalized text gives it back
/// unchanged, for every input in [`renormalizable`] — that is, every input
/// whose run never reads `)` or a nested-closing `}` right after a
/// non-space emission, and never reads a `/` right after an emitted `/`.
/// (On the excluded inputs a second pass genuinely differs: `normalize("a)")`
/// is `"a )"`, while normalizing `"a )"` gives `"a  )"`.)
pub proof fn lemma_normalize_idempotent(s: Seq<char>)
    requires
        renormalizable(s),
    ensures
        normalized(normalized(s)) == normalized(s),
{
    let out1 = raw_output(s);
    assert(out1.skip(0) =~= out1);
    lemma_retrace(s, out1, 0, 0, init_state());
    assert(run(out1, 0, init_state()).0 == out1);
    let t = trim_trailing(out1);
    lemma_trim_is_prefix(out1);
    let k = t.len() as int;
    let w = out1.skip(k);
    assert(t + w =~= out1);
    assert forall|m: int| 0 <= m < w.len() implies trim_char(w[m]) by {
        assert(w[m] == out1[k + m]);
    }
    // the boundary of the split is safe: `w` is whitespace, never a slash
    lemma_run_concat(t, w, 0, init_state());
    let mid = run(t, 0, init_state()).1;
    let r0 = run(t, 0, init_state()).0;
    let ew = run(w, 0, mid).0;
    assert(r0 + ew == out1);
    lemma_run_ws(w, 0, mid);
    if t.len() == 0 {
        assert(r0 =~= Seq::<char>::empty());
        assert(normalized(t) == trim_trailing(r0));
    } else {
        // the second run's output covers all of `t`: were it shorter, the
        // last character of `t` would lie in the whitespace-only remainder
        if r0.len() < t.len() {
            assert(out1[t.len() - 1] == t[t.len() - 1]);
            assert(!trim_char(t[t.len() - 1]));
            assert(out1[t.len() - 1] == ew[t.len() - 1 - r0.len()]);
            assert(trim_char(ew[t.len() - 1 - r0.len()]));
            assert(false);
        }
        let tail = r0.skip(t.len() as int);
        assert(t + tail =~= r0);
        assert forall|m: int| 0 <= m < tail.len() implies trim_char(tail[m]) by {
            assert(tail[m] == r0[t.len() + m]);
            assert(r0[t.len() + m] == out1[t.len() + m]);
        }
        lemma_trim_append_ws(t, tail);
        assert(trim_trailing(r0) == trim_trailing(t));
        lemma_trim_is_prefix(t);
        assert(trim_trailing(t) == t) by {
            assert(!trim_char(t.last()));
        }
    }
}

} // verus!
