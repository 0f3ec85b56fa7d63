//! Command reconstruction: joining launch tokens into one shell-style string
//! and splitting such a string back into executable tokens.
//!
//! `join` wraps a token in double quotes when it is empty or contains a
//! space; a single-token input is passed through unchanged, so a caller that
//! already holds one unified command string is not re-quoted. `split` walks
//! the string once: a quote character opens a quoted span that runs to the
//! matching quote, an unquoted space ends the current token, and every other
//! character joins the current token. The two operations are inverses on
//! token lists whose tokens carry no double quote — nor, in a token written
//! bare, a single quote — and whose lone token, if there is only one, needs
//! no quoting: see [`lemma_split_join_round_trip`].

use vstd::prelude::*;
use vstd::string::*;

verus! {

/// Why a command string or token list was rejected.
#[derive(Debug, Clone, Copy, PartialEq, Eq, Structural)]
pub enum FormatError {
    /// `join` was given no tokens at all.
    EmptyCommand,
    /// `split` reached the end of the string inside a quoted span.
    UnterminatedQuote,
}

impl FormatError {
    /// A short human-readable account of the error.
    pub fn message(&self) -> (r: String)
        ensures
            *self is EmptyCommand ==> r@ == "the command has no tokens"@,
            *self is UnterminatedQuote ==> r@ == "unterminated quote in the command"@,
    {
        match self {
            FormatError::EmptyCommand => String::from_str("the command has no tokens"),
            FormatError::UnterminatedQuote => String::from_str("unterminated quote in the command"),
        }
    }
}

/// The views of a list of exec tokens.
pub open spec fn views(ts: Seq<String>) -> Seq<Seq<char>> {
    ts.map_values(|t: String| t@)
}

/// Characters that open and close quoted spans.
pub open spec fn is_quote_char(c: char) -> bool {
    c == '\'' || c == '"'
}

/// A token that survives the round trip: it carries no double quote (the
/// character `join` quotes with), and, when `join` writes it bare, no single
/// quote either — a bare quote character would open a span while splitting.
pub open spec fn token_round_trips(t: Seq<char>) -> bool {
    &&& forall|i: int| 0 <= i < t.len() ==> t[i] != '"'
    &&& !needs_quoting(t) ==> forall|i: int| 0 <= i < t.len() ==> t[i] != '\''
}

pub open spec fn has_space(t: Seq<char>) -> bool {
    exists|i: int| 0 <= i < t.len() && t[i] == ' '
}

/// `join` must quote a token that would otherwise lose its boundaries.
pub open spec fn needs_quoting(t: Seq<char>) -> bool {
    t.len() == 0 || has_space(t)
}

/// How `join` writes one token into the command string.
pub open spec fn encode_token(t: Seq<char>) -> Seq<char> {
    if needs_quoting(t) {
        seq!['"'] + t + seq!['"']
    } else {
        t
    }
}

/// The command string for a token list: encoded tokens separated by single
/// spaces.
pub open spec fn join_tokens(ts: Seq<Seq<char>>) -> Seq<char>
    decreases ts.len(),
{
    if ts.len() == 0 {
        Seq::empty()
    } else if ts.len() == 1 {
        encode_token(ts[0])
    } else {
        join_tokens(ts.drop_last()) + seq![' '] + encode_token(ts.last())
    }
}

/// What `join` returns: a lone token passes through unchanged (it may already
/// be a unified command), more tokens are encoded and separated.
pub open spec fn join_spec(ts: Seq<Seq<char>>) -> Seq<char> {
    if ts.len() == 1 {
        ts[0]
    } else {
        join_tokens(ts)
    }
}

/// The splitter's state after reading a prefix of the command string:
/// finished tokens, the token being built, whether that token has begun
/// (a quote pair alone begins an empty token), and the currently open quote.
#[verifier::ext_equal]
pub struct SplitState {
    pub toks: Seq<Seq<char>>,
    pub cur: Seq<char>,
    pub started: bool,
    pub quote: Option<char>,
}

pub open spec fn split_init() -> SplitState {
    SplitState { toks: Seq::empty(), cur: Seq::empty(), started: false, quote: None }
}

/// One character of splitting.
pub open spec fn split_step(st: SplitState, c: char) -> SplitState {
    match st.quote {
        Some(q) => if c == q {
            SplitState { toks: st.toks, cur: st.cur, started: st.started, quote: None }
        } else {
            SplitState { toks: st.toks, cur: st.cur.push(c), started: st.started, quote: st.quote }
        },
        None => if is_quote_char(c) {
            SplitState { toks: st.toks, cur: st.cur, started: true, quote: Some(c) }
        } else if c == ' ' {
            if st.started {
                SplitState {
                    toks: st.toks.push(st.cur),
                    cur: Seq::empty(),
                    started: false,
                    quote: None,
                }
            } else {
                st
            }
        } else {
            SplitState { toks: st.toks, cur: st.cur.push(c), started: true, quote: None }
        },
    }
}

pub open spec fn split_run(st: SplitState, s: Seq<char>) -> SplitState
    decreases s.len(),
{
    if s.len() == 0 {
        st
    } else {
        split_run(split_step(st, s[0]), s.drop_first())
    }
}

/// Ends the walk: an open quote is an error; an unfinished token is pushed.
pub open spec fn split_finish(st: SplitState) -> Option<Seq<Seq<char>>> {
    if st.quote is Some {
        None
    } else if st.started {
        Some(st.toks.push(st.cur))
    } else {
        Some(st.toks)
    }
}

/// What `split` returns for a command string, or `None` on an unterminated
/// quote.
pub open spec fn split_spec(s: Seq<char>) -> Option<Seq<Seq<char>>> {
    split_finish(split_run(split_init(), s))
}

pub proof fn lemma_split_run_append(st: SplitState, a: Seq<char>, b: Seq<char>)
    ensures
        split_run(st, a + b) == split_run(split_run(st, a), b),
    decreases a.len(),
{
    if a.len() == 0 {
        assert(a + b =~= b);
    } else {
        assert((a + b)[0] == a[0]);
        assert((a + b).drop_first() =~= a.drop_first() + b);
        lemma_split_run_append(split_step(st, a[0]), a.drop_first(), b);
    }
}

pub proof fn lemma_split_run_one(st: SplitState, c: char)
    ensures
        split_run(st, seq![c]) == split_step(st, c),
{
    let s = seq![c];
    assert(s[0] == c);
    assert(s.drop_first().len() == 0);
    assert(split_run(split_step(st, c), s.drop_first()) == split_step(st, c));
}

pub proof fn lemma_split_run_push(st: SplitState, a: Seq<char>, c: char)
    ensures
        split_run(st, a.push(c)) == split_step(split_run(st, a), c),
{
    assert(a.push(c) =~= a + seq![c]);
    lemma_split_run_append(st, a, seq![c]);
    lemma_split_run_one(split_run(st, a), c);
}

/// Outside quotes, a run of plain non-space characters only grows the
/// current token.
proof fn lemma_run_bare(st: SplitState, t: Seq<char>)
    requires
        st.quote is None,
        forall|i: int| 0 <= i < t.len() ==> !is_quote_char(#[trigger] t[i]) && t[i] != ' ',
    ensures
        split_run(st, t) == (SplitState {
            toks: st.toks,
            cur: st.cur + t,
            started: st.started || t.len() > 0,
            quote: None,
        }),
    decreases t.len(),
{
    if t.len() == 0 {
        assert(st.cur + t =~= st.cur);
        assert(split_run(st, t) =~= SplitState {
            toks: st.toks,
            cur: st.cur + t,
            started: st.started,
            quote: None,
        });
    } else {
        let st1 = split_step(st, t[0]);
        lemma_run_bare(st1, t.drop_first());
        assert(st1.cur + t.drop_first() =~= st.cur + t);
    }
}

/// Inside a quoted span, every character short of the closing quote only
/// grows the current token.
proof fn lemma_run_quoted(st: SplitState, t: Seq<char>, q: char)
    requires
        st.quote == Some(q),
        forall|i: int| 0 <= i < t.len() ==> t[i] != q,
    ensures
        split_run(st, t) == (SplitState {
            toks: st.toks,
            cur: st.cur + t,
            started: st.started,
            quote: Some(q),
        }),
    decreases t.len(),
{
    if t.len() == 0 {
        assert(st.cur + t =~= st.cur);
        assert(split_run(st, t) =~= SplitState {
            toks: st.toks,
            cur: st.cur + t,
            started: st.started,
            quote: Some(q),
        });
    } else {
        let st1 = split_step(st, t[0]);
        lemma_run_quoted(st1, t.drop_first(), q);
        assert(st1.cur + t.drop_first() =~= st.cur + t);
    }
}

/// Reading one encoded round-trippable token at a fresh cursor leaves
/// exactly that token in the cursor.
proof fn lemma_run_encoded(toks: Seq<Seq<char>>, t: Seq<char>)
    requires
        token_round_trips(t),
    ensures
        split_run(
            SplitState { toks: toks, cur: Seq::empty(), started: false, quote: None },
            encode_token(t),
        ) == (SplitState { toks: toks, cur: t, started: true, quote: None }),
{
    let st0 = SplitState { toks: toks, cur: Seq::empty(), started: false, quote: None };
    if needs_quoting(t) {
        let open = seq!['"'];
        let body = t;
        let close = seq!['"'];
        assert(encode_token(t) =~= open + (body + close));
        lemma_split_run_append(st0, open, body + close);
        lemma_split_run_one(st0, '"');
        assert(open =~= seq!['"']);
        let st1 = split_run(st0, open);
        lemma_split_run_append(st1, body, close);
        lemma_run_quoted(st1, body, '"');
        let st2 = split_run(st1, body);
        assert(st2.cur =~= t);
        lemma_split_run_one(st2, '"');
    } else {
        assert(forall|i: int|
            0 <= i < t.len() ==> !is_quote_char(#[trigger] t[i]) && t[i] != ' ');
        lemma_run_bare(st0, t);
        assert(st0.cur + t =~= t);
    }
}

/// Reading a whole joined token list leaves all but the last token finished
/// and the last one in the cursor.
proof fn lemma_run_join_tokens(toks: Seq<Seq<char>>, ts: Seq<Seq<char>>)
    requires
        ts.len() >= 1,
        forall|i: int| 0 <= i < ts.len() ==> token_round_trips(#[trigger] ts[i]),
    ensures
        split_run(
            SplitState { toks: toks, cur: Seq::empty(), started: false, quote: None },
            join_tokens(ts),
        ) == (SplitState { toks: toks + ts.drop_last(), cur: ts.last(), started: true, quote: None }),
    decreases ts.len(),
{
    let st0 = SplitState { toks: toks, cur: Seq::empty(), started: false, quote: None };
    if ts.len() == 1 {
        lemma_run_encoded(toks, ts[0]);
        assert(toks + ts.drop_last() =~= toks);
    } else {
        let front = ts.drop_last();
        let t = ts.last();
        assert(join_tokens(ts) =~= join_tokens(front) + (seq![' '] + encode_token(t)));
        lemma_split_run_append(st0, join_tokens(front), seq![' '] + encode_token(t));
        lemma_run_join_tokens(toks, front);
        let st1 = split_run(st0, join_tokens(front));
        lemma_split_run_append(st1, seq![' '], encode_token(t));
        lemma_split_run_one(st1, ' ');
        let st2 = split_run(st1, seq![' ']);
        assert(st2 == split_step(st1, ' '));
        assert(st2.toks =~= toks + front);
        lemma_run_encoded(st2.toks, t);
        assert(split_run(st2, encode_token(t)) == SplitState {
            toks: toks + front,
            cur: t,
            started: true,
            quote: None,
        });
    }
}

/// The round trip: splitting a joined token list yields the list again,
/// provided every token is one the encoding can carry (see
/// [`token_round_trips`]) and a lone token is not one that joining would
/// have had to quote (a lone unified command is passed through verbatim and
/// splits at its own spaces instead).
pub proof fn lemma_split_join_round_trip(ts: Seq<Seq<char>>)
    requires
        ts.len() >= 1,
        forall|i: int| 0 <= i < ts.len() ==> token_round_trips(#[trigger] ts[i]),
        ts.len() == 1 ==> !needs_quoting(ts[0]),
    ensures
        split_spec(join_spec(ts)) == Some(ts),
{
    if ts.len() == 1 {
        assert(forall|i: int|
            0 <= i < ts[0].len() ==> !is_quote_char(#[trigger] ts[0][i]) && ts[0][i] != ' ');
        lemma_run_bare(split_init(), ts[0]);
        let st = split_run(split_init(), ts[0]);
        assert(st.cur =~= ts[0]);
        assert(split_finish(st) == Some(st.toks.push(ts[0])));
        assert(st.toks.push(ts[0]) =~= ts);
    } else {
        lemma_run_join_tokens(Seq::empty(), ts);
        let st = split_run(split_init(), join_tokens(ts));
        assert(st.toks.push(st.cur) =~= ts);
    }
}

/// Relies on `String`'s `FromIterator<char>` implementation: collecting
/// characters yields exactly the string of those characters, in order.
#[verifier::external_body]
fn chars_to_string(chars: &Vec<char>) -> (r: String)
    ensures
        r@ == chars@,
{
    chars.iter().collect()
}

/// Whether `join` has to quote this token.
fn token_needs_quoting(t: &str) -> (r: bool)
    ensures
        r == needs_quoting(t@),
{
    let n = t.unicode_len();
    if n == 0 {
        return true;
    }
    let mut i: usize = 0;
    while i < n
        invariant
            i <= n,
            n == t@.len(),
            forall|j: int| 0 <= j < i ==> t@[j] != ' ',
        decreases n - i,
    {
        if t.get_char(i) == ' ' {
            return true;
        }
        i += 1;
    }
    false
}

/// Joins launch tokens into one shell-style command string. A lone token is
/// returned unchanged; with more tokens, each one that is empty or contains a
/// space is wrapped in double quotes, and tokens are separated by single
/// spaces. Fails only when there is no token at all.
pub fn join(tokens: &Vec<String>) -> (r: Result<String, FormatError>)
    ensures
        match r {
            Ok(s) => tokens@.len() > 0 && s@ == join_spec(views(tokens@)),
            Err(e) => tokens@.len() == 0 && e == FormatError::EmptyCommand,
        },
{
    if tokens.len() == 0 {
        return Err(FormatError::EmptyCommand);
    }
    if tokens.len() == 1 {
        return Ok(tokens[0].clone());
    }
    let ghost ts = views(tokens@);
    let mut out = String::new();
    let mut i: usize = 0;
    while i < tokens.len()
        invariant
            i <= tokens.len(),
            tokens@.len() >= 2,
            ts == views(tokens@),
            ts.len() == tokens@.len(),
            forall|j: int| 0 <= j < ts.len() ==> ts[j] == tokens@[j]@,
            out@ == join_tokens(ts.take(i as int)),
        decreases tokens.len() - i,
    {
        if i > 0 {
            out.append(" ");
        }
        let t = &tokens[i];
        if token_needs_quoting(t.as_str()) {
            out.append("\"");
            out.append(t.as_str());
            out.append("\"");
        } else {
            out.append(t.as_str());
        }
        proof {
            reveal_strlit(" ");
            reveal_strlit("\"");
            assert(" "@ =~= seq![' ']);
            assert("\""@ =~= seq!['"']);
            let pre = ts.take(i as int);
            let now = ts.take(i as int + 1);
            assert(now.drop_last() =~= pre);
            assert(now.last() == ts[i as int]);
            if i == 0 {
                assert(out@ =~= encode_token(ts[0]));
                assert(join_tokens(now) == encode_token(now[0]));
            } else {
                assert(out@ =~= join_tokens(pre) + seq![' '] + encode_token(ts[i as int]));
            }
        }
        i += 1;
    }
    proof {
        assert(ts.take(tokens@.len() as int) =~= ts);
    }
    Ok(out)
}

/// Splits a shell-style command string into executable tokens. Quote
/// characters open spans whose spaces do not separate tokens; the quotes
/// themselves are dropped. Fails exactly when a quote is left open at the
/// end of the string.
pub fn split(command: &str) -> (r: Result<Vec<String>, FormatError>)
    ensures
        match r {
            Ok(toks) => split_spec(command@) == Some(views(toks@)),
            Err(e) => split_spec(command@) is None && e == FormatError::UnterminatedQuote,
        },
{
    let n = command.unicode_len();
    let mut toks: Vec<String> = Vec::new();
    let mut cur: Vec<char> = Vec::new();
    let mut started = false;
    let mut quote: Option<char> = None;
    let mut i: usize = 0;
    while i < n
        invariant
            i <= n,
            n == command@.len(),
            split_run(split_init(), command@.take(i as int)) == (SplitState {
                toks: views(toks@),
                cur: cur@,
                started: started,
                quote: quote,
            }),
        decreases n - i,
    {
        let ghost pre = command@.take(i as int);
        let c = command.get_char(i);
        proof {
            assert(command@.take(i as int + 1) =~= pre.push(c));
            lemma_split_run_push(split_init(), pre, c);
        }
        match quote {
            Some(q) => {
                if c == q {
                    quote = None;
                } else {
                    cur.push(c);
                }
            },
            None => {
                if c == '\'' || c == '"' {
                    quote = Some(c);
                    started = true;
                } else if c == ' ' {
                    if started {
                        let ghost oldtoks = views(toks@);
                        let token = chars_to_string(&cur);
                        toks.push(token);
                        cur = Vec::new();
                        started = false;
                        proof {
                            assert(views(toks@) =~= oldtoks.push(token@));
                        }
                    }
                } else {
                    cur.push(c);
                    started = true;
                }
            },
        }
        i += 1;
    }
    proof {
        assert(command@.take(n as int) =~= command@);
    }
    if quote.is_some() {
        return Err(FormatError::UnterminatedQuote);
    }
    if started {
        let ghost oldtoks = views(toks@);
        let token = chars_to_string(&cur);
        toks.push(token);
        proof {
            assert(views(toks@) =~= oldtoks.push(token@));
        }
    }
    Ok(toks)
}

} // verus!
