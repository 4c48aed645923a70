//! The source normalizer: a single forward pass over the input's characters
//! that rewrites a source text into canonical form.
//!
//! The pass keeps three pieces of state: the current indentation depth
//! (incremented on `{`, decremented on `}`), a flag saying whether at least
//! one brace is currently open, and a flag saying whether the scan stands
//! inside a `//`-style line comment.  Each character is handled by the first
//! matching rule of [`emit`]; indentation is always written as four spaces
//! per open brace, and trailing whitespace is trimmed from the final output.
//!
//! One behaviour is deliberately pinned down here: while the scan is inside
//! a line comment, every character up to the closing newline is copied
//! verbatim, so `;`, `{`, `}`, `:`, `(`, `)` and `/` occurring in comment
//! text never trigger their formatting actions.  Only the newline rule fires
//! inside a comment, closing it and starting a fresh indented line.
//!
//! The automaton has no awareness of string or character literals: a
//! formatting character inside a literal is reformatted as if it were code.

use vstd::prelude::*;
use vstd::string::StrSliceExecFns;
use vstd::string::StringExecFns;

verus! {

/// The normalizer's state between two characters of the input.
///
/// `indent` is the number of currently open braces; `comment` is true while
/// the scan stands inside a `//`-style line comment; `prev` is the most
/// recently emitted character, if any (the space-collapsing rule reads it).
///
/// The executable pass also keeps an `inside_brace` flag, set on `{` and
/// recomputed on `}`.  That flag always equals `indent > 0` — opening a brace
/// makes the depth positive, and closing one sets the flag to exactly
/// `indent > 0` — so the model carries the depth alone and the flag is kept
/// as a loop invariant.
#[verifier::ext_equal]
pub struct NormState {
    pub indent: nat,
    pub comment: bool,
    pub prev: Option<char>,
}

/// The state before any character has been scanned.
pub open spec fn init_state() -> NormState {
    NormState { indent: 0, comment: false, prev: None }
}

/// Exactly four spaces for each open brace.
pub open spec fn indent_chars(n: nat) -> Seq<char>
    decreases n,
{
    if n == 0 {
        Seq::empty()
    } else {
        indent_chars((n - 1) as nat) + seq![' ', ' ', ' ', ' ']
    }
}

/// How many input characters one step consumes: two when an opening `//` is
/// recognised (the second slash is taken together with the first), one
/// otherwise.
pub open spec fn advance(st: NormState, c: char, nx: Option<char>) -> int {
    if !st.comment && c == '/' && nx == Some('/') {
        2
    } else {
        1
    }
}

/// The characters one step appends to the output.
///
/// `c` is the current character and `nx` the one character of lookahead.
/// Inside a comment only the newline rule fires; outside, the rules are
/// tried in a fixed priority order, the default rule last.
pub open spec fn emit(st: NormState, c: char, nx: Option<char>) -> Seq<char> {
    if st.comment {
        if c == '\n' {
            seq!['\n'] + indent_chars(st.indent)
        } else {
            seq![c]
        }
    } else if c == '{' {
        seq!['{', '\n'] + indent_chars((st.indent + 1) as nat)
    } else if c == '}' {
        if st.indent > 0 {
            seq!['\n'] + indent_chars((st.indent - 1) as nat) + seq!['}', '\n'] + indent_chars(
                (st.indent - 1) as nat,
            )
        } else {
            Seq::empty()
        }
    } else if c == ';' {
        seq![';', '\n'] + indent_chars(st.indent)
    } else if c == ':' {
        seq![':', ' ']
    } else if c == '(' {
        seq!['(', ' ']
    } else if c == ')' {
        seq![' ', ')']
    } else if c == '/' {
        if nx == Some('/') {
            seq!['/', '/']
        } else {
            seq!['/']
        }
    } else if c == '\n' {
        Seq::empty()
    } else if c == ' ' {
        if st.prev == Some(' ') {
            Seq::empty()
        } else {
            seq![' ']
        }
    } else {
        seq![c]
    }
}

/// The state after one step: the new indentation depth, the new comment
/// flag, and the last emitted character carried forward.
pub open spec fn next_state(st: NormState, c: char, nx: Option<char>) -> NormState {
    let e = emit(st, c, nx);
    let ind = if st.comment {
        st.indent
    } else if c == '{' {
        (st.indent + 1) as nat
    } else if c == '}' && st.indent > 0 {
        (st.indent - 1) as nat
    } else {
        st.indent
    };
    let com = if st.comment {
        c != '\n'
    } else {
        c == '/' && nx == Some('/')
    };
    NormState {
        indent: ind,
        comment: com,
        prev: if e.len() > 0 {
            Some(e.last())
        } else {
            st.prev
        },
    }
}

/// The run of the automaton over `s` from position `i` in state `st`:
/// everything emitted from there to the end of the input, and the final
/// state.
pub open spec fn run(s: Seq<char>, i: int, st: NormState) -> (Seq<char>, NormState)
    decreases s.len() - i,
{
    if i < 0 || i >= s.len() {
        (Seq::empty(), st)
    } else {
        let c = s[i];
        let nx = if i + 1 < s.len() {
            Some(s[i + 1])
        } else {
            None
        };
        let r = run(s, i + advance(st, c, nx), next_state(st, c, nx));
        (emit(st, c, nx) + r.0, r.1)
    }
}

/// The characters trimmed from the end of the output: the Unicode
/// White_Space set, exactly the characters `char::is_whitespace` accepts.
pub open spec fn trim_char(c: char) -> bool {
    c == ' ' || c == '\t' || c == '\n' || c == '\u{000B}' || c == '\u{000C}' || c == '\r' || c
        == '\u{0085}' || c == '\u{00A0}' || c == '\u{1680}' || c == '\u{2000}' || c == '\u{2001}'
        || c == '\u{2002}' || c == '\u{2003}' || c == '\u{2004}' || c == '\u{2005}' || c
        == '\u{2006}' || c == '\u{2007}' || c == '\u{2008}' || c == '\u{2009}' || c == '\u{200A}'
        || c == '\u{2028}' || c == '\u{2029}' || c == '\u{202F}' || c == '\u{205F}' || c
        == '\u{3000}'
}

/// The output with its trailing whitespace removed.
pub open spec fn trim_trailing(t: Seq<char>) -> Seq<char>
    decreases t.len(),
{
    if t.len() > 0 && trim_char(t.last()) {
        trim_trailing(t.drop_last())
    } else {
        t
    }
}

/// Everything the automaton emits for `s`, before the final trim.
pub open spec fn raw_output(s: Seq<char>) -> Seq<char> {
    run(s, 0, init_state()).0
}

/// The canonical form of `s`: the full run's output, trimmed.
pub open spec fn normalized(s: Seq<char>) -> Seq<char> {
    trim_trailing(raw_output(s))
}

/// The length and contents of an indentation block: `4 * n` spaces.
pub proof fn lemma_indent_chars(n: nat)
    ensures
        indent_chars(n).len() == 4 * n,
        forall|k: int| 0 <= k < 4 * n ==> indent_chars(n)[k] == ' ',
    decreases n,
{
    if n > 0 {
        lemma_indent_chars((n - 1) as nat);
    }
}

/// Relies on `String::push` from std: it appends exactly the given
/// character to the end of the string.
#[verifier::external_body]
fn push_char(s: &mut String, c: char)
    ensures
        final(s)@ == old(s)@.push(c),
{
    s.push(c);
}

/// Appends `4 * indent_level` space characters to `result`.
pub fn add_indentation(result: &mut String, indent_level: usize)
    ensures
        final(result)@ == old(result)@ + indent_chars(indent_level as nat),
{
    let mut j: usize = 0;
    while j < indent_level
        invariant
            j <= indent_level,
            result@ == old(result)@ + indent_chars(j as nat),
        decreases indent_level - j,
    {
        proof {
            reveal_strlit("    ");
        }
        result.append("    ");
        j = j + 1;
        proof {
            assert(result@ =~= old(result)@ + indent_chars(j as nat));
        }
    }
}

/// True exactly for the characters that the final trim removes.
fn is_trim_char(c: char) -> (b: bool)
    ensures
        b == trim_char(c),
{
    c == ' ' || c == '\t' || c == '\n' || c == '\u{000B}' || c == '\u{000C}' || c == '\r' || c
        == '\u{0085}' || c == '\u{00A0}' || c == '\u{1680}' || c == '\u{2000}' || c == '\u{2001}'
        || c == '\u{2002}' || c == '\u{2003}' || c == '\u{2004}' || c == '\u{2005}' || c
        == '\u{2006}' || c == '\u{2007}' || c == '\u{2008}' || c == '\u{2009}' || c == '\u{200A}'
        || c == '\u{2028}' || c == '\u{2029}' || c == '\u{202F}' || c == '\u{205F}' || c
        == '\u{3000}'
}

/// Rewrites a source text into its canonical form: one statement per line,
/// bodies indented four spaces per open brace, single spaces around `:` and
/// inside `( )`, runs of spaces collapsed, source newlines dropped except
/// where they close a line comment, and trailing whitespace trimmed.
#[verifier::rlimit(100)]
pub fn normalize_code(code: &str) -> (r: String)
    ensures
        r@ == normalized(code@),
        r@.len() == 0 || !trim_char(r@.last()),
{
    let n: usize = code.unicode_len();
    let mut result = String::new();
    let mut indent_level: usize = 0;
    let mut inside_brace = false;
    let mut inside_comment = false;
    let mut prev_space = false;
    let ghost mut st = init_state();
    let mut i: usize = 0;
    while i < n
        invariant
            n == code@.len(),
            i <= n,
            indent_level as int <= i as int,
            st.indent == indent_level as nat,
            st.comment == inside_comment,
            inside_brace == (st.indent > 0),
            prev_space == (st.prev == Some(' ')),
            run(code@, 0, init_state()).0 == result@ + run(code@, i as int, st).0,
            run(code@, 0, init_state()).1 == run(code@, i as int, st).1,
        decreases n - i,
    {
        let ghost prefix = result@;
        let c = code.get_char(i);
        let ghost nx: Option<char> = if i + 1 < n {
            Some(code@[i as int + 1])
        } else {
            None
        };
        let ghost st0 = st;
        proof {
            st = next_state(st0, c, nx);
            lemma_indent_chars(st0.indent);
            lemma_indent_chars((st0.indent + 1) as nat);
            if st0.indent > 0 {
                lemma_indent_chars((st0.indent - 1) as nat);
            }
        }
        if inside_comment {
            if c == '\n' {
                inside_comment = false;
                push_char(&mut result, '\n');
                add_indentation(&mut result, indent_level);
                prev_space = indent_level > 0;
            } else {
                push_char(&mut result, c);
                prev_space = c == ' ';
            }
            i = i + 1;
        } else if c == '{' {
            push_char(&mut result, c);
            push_char(&mut result, '\n');
            indent_level = indent_level + 1;
            add_indentation(&mut result, indent_level);
            inside_brace = true;
            prev_space = true;
            i = i + 1;
        } else if c == '}' {
            if inside_brace {
                indent_level = indent_level - 1;
                push_char(&mut result, '\n');
                add_indentation(&mut result, indent_level);
                push_char(&mut result, c);
                push_char(&mut result, '\n');
                add_indentation(&mut result, indent_level);
                inside_brace = indent_level > 0;
                prev_space = indent_level > 0;
            }
            i = i + 1;
        } else if c == ';' {
            push_char(&mut result, c);
            push_char(&mut result, '\n');
            add_indentation(&mut result, indent_level);
            prev_space = indent_level > 0;
            i = i + 1;
        } else if c == ':' {
            push_char(&mut result, c);
            push_char(&mut result, ' ');
            prev_space = true;
            i = i + 1;
        } else if c == '(' {
            push_char(&mut result, c);
            push_char(&mut result, ' ');
            prev_space = true;
            i = i + 1;
        } else if c == ')' {
            push_char(&mut result, ' ');
            push_char(&mut result, c);
            prev_space = false;
            i = i + 1;
        } else if c == '/' {
            let mut second = false;
            if i + 1 < n {
                if code.get_char(i + 1) == '/' {
                    second = true;
                }
            }
            if second {
                inside_comment = true;
                push_char(&mut result, c);
                push_char(&mut result, '/');
                prev_space = false;
                i = i + 2;
            } else {
                push_char(&mut result, c);
                prev_space = false;
                i = i + 1;
            }
        } else if c == '\n' {
            i = i + 1;
        } else if c == ' ' {
            if !prev_space {
                push_char(&mut result, c);
                prev_space = true;
            }
            i = i + 1;
        } else {
            push_char(&mut result, c);
            prev_space = c == ' ';
            i = i + 1;
        }
        proof {
            assert(result@ =~= prefix + emit(st0, c, nx));
            assert(run(code@, 0, init_state()).0 == result@ + run(code@, i as int, st).0);
        }
    }
    let total: usize = result.as_str().unicode_len();
    let mut k: usize = total;
    proof {
        assert(result@.take(total as int) =~= result@);
    }
    while k > 0 && is_trim_char(result.as_str().get_char(k - 1))
        invariant
            k <= total,
            total == result@.len(),
            trim_trailing(result@) == trim_trailing(result@.take(k as int)),
        decreases k,
    {
        proof {
            assert(result@.take(k as int).last() == result@[k as int - 1]);
            assert(result@.take(k as int).drop_last() =~= result@.take(k as int - 1));
        }
        k = k - 1;
    }
    proof {
        if k == 0 {
            assert(result@.take(0) =~= Seq::<char>::empty());
        } else {
            assert(result@.take(k as int).last() == result@[k as int - 1]);
        }
        assert(trim_trailing(result@) == result@.take(k as int));
    }
    let out = result.as_str().substring_char(0, k);
    let r = String::from_str(out);
    proof {
        assert(r@ == result@.subrange(0, k as int));
        assert(run(code@, i as int, st).0 =~= Seq::<char>::empty());
        assert(result@ =~= run(code@, 0, init_state()).0);
        if k > 0 {
            assert(r@.last() == result@[k as int - 1]);
            assert(!trim_char(r@.last()));
        }
    }
    r
}

} // verus!
