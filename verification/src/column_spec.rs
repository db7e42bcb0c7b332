//! The row-template mini-language and its parser.
//!
//! A template is compiled into an ordered list of tokens: `{:<}` yields a
//! left-aligned column, `{:>}` a right-aligned column, `{{` and `}}` stand
//! for literal braces, and every other character joins the current literal
//! run.  A lone `{` that does not open a recognized alignment specifier, or a
//! `}` that is not part of a `}}` escape, is an error.

use vstd::prelude::*;
use vstd::string::StrSliceExecFns;
use vstd::string::StringExecFns;
use crate::width_string::push_char;

verus! {

/// One compiled unit of a row template.
#[derive(Clone, Debug, PartialEq)]
pub enum ColumnSpec {
    /// A column whose cell is padded on the right.
    Left,
    /// A column whose cell is padded on the left.
    Right,
    /// A run of literal text, emitted verbatim (braces already un-escaped).
    Literal(String),
}

/// The mathematical value of a [`ColumnSpec`].
pub ghost enum TokenView {
    Left,
    Right,
    Literal(Seq<char>),
}

impl View for ColumnSpec {
    type V = TokenView;

    open spec fn view(&self) -> TokenView {
        match self {
            ColumnSpec::Left => TokenView::Left,
            ColumnSpec::Right => TokenView::Right,
            ColumnSpec::Literal(s) => TokenView::Literal(s@),
        }
    }
}

/// A way a row template can be malformed.
#[derive(Clone, Debug, PartialEq)]
pub enum Error {
    /// A `{` reached the end of the template before its closing `}`; holds
    /// the partial specifier contents seen so far.
    UnclosedColumnSpec(String),
    /// The given character appeared where the template syntax does not allow
    /// it.
    UnexpectedCharacter(char),
    /// The contents between `{` and `}` are neither `:<` nor `:>`.
    BadColumnSpec(String),
    /// A `}` appeared that is not part of a `}}` escape.
    UnexpectedRightBrace,
}

/// The mathematical value of an [`Error`].
pub ghost enum ErrorView {
    UnclosedColumnSpec(Seq<char>),
    UnexpectedCharacter(char),
    BadColumnSpec(Seq<char>),
    UnexpectedRightBrace,
}

impl View for Error {
    type V = ErrorView;

    open spec fn view(&self) -> ErrorView {
        match self {
            Error::UnclosedColumnSpec(s) => ErrorView::UnclosedColumnSpec(s@),
            Error::UnexpectedCharacter(c) => ErrorView::UnexpectedCharacter(*c),
            Error::BadColumnSpec(s) => ErrorView::BadColumnSpec(s@),
            Error::UnexpectedRightBrace => ErrorView::UnexpectedRightBrace,
        }
    }
}

/// The views of a sequence of tokens, element by element.
pub open spec fn tokens_view(ts: Seq<ColumnSpec>) -> Seq<TokenView> {
    Seq::new(ts.len(), |i: int| ts[i]@)
}

/// Whether a token marks a column (as opposed to literal text).
pub open spec fn is_align(t: TokenView) -> bool {
    t is Left || t is Right
}

/// How many tokens of `ts` mark a column.
pub open spec fn spec_align_count(ts: Seq<TokenView>) -> nat
    decreases ts.len(),
{
    if ts.len() == 0 {
        0
    } else {
        (if is_align(ts[0]) {
            1nat
        } else {
            0nat
        }) + spec_align_count(ts.skip(1))
    }
}

/// The pending literal run `buf`, flushed onto `ts` if it is non-empty.
pub open spec fn flush(ts: Seq<TokenView>, buf: Seq<char>) -> Seq<TokenView> {
    if buf.len() > 0 {
        ts.push(TokenView::Literal(buf))
    } else {
        ts
    }
}

/// One-pass tokenization of the remaining template `s`, with the pending
/// literal run `buf` and the tokens and column count seen so far.
pub open spec fn parse_step(
    s: Seq<char>,
    buf: Seq<char>,
    ts: Seq<TokenView>,
    count: nat,
) -> Result<(Seq<TokenView>, nat), ErrorView>
    decreases s.len(),
{
    if s.len() == 0 {
        Ok((flush(ts, buf), count))
    } else if s[0] == '{' {
        if s.len() == 1 {
            Err(ErrorView::UnclosedColumnSpec(Seq::empty()))
        } else if s[1] == '{' {
            parse_step(s.skip(2), buf.push('{'), ts, count)
        } else if s[1] == ':' {
            if s.len() == 2 {
                Err(ErrorView::UnclosedColumnSpec(seq![':']))
            } else if s[2] == '<' {
                if s.len() == 3 {
                    Err(ErrorView::UnclosedColumnSpec(seq![':', '<']))
                } else if s[3] == '}' {
                    parse_step(s.skip(4), Seq::empty(), flush(ts, buf).push(TokenView::Left), count + 1)
                } else {
                    Err(ErrorView::UnexpectedCharacter(s[3]))
                }
            } else if s[2] == '>' {
                if s.len() == 3 {
                    Err(ErrorView::UnclosedColumnSpec(seq![':', '>']))
                } else if s[3] == '}' {
                    parse_step(s.skip(4), Seq::empty(), flush(ts, buf).push(TokenView::Right), count + 1)
                } else {
                    Err(ErrorView::UnexpectedCharacter(s[3]))
                }
            } else {
                Err(ErrorView::BadColumnSpec(seq![':', s[2]]))
            }
        } else {
            Err(ErrorView::UnexpectedCharacter(s[1]))
        }
    } else if s[0] == '}' {
        if s.len() >= 2 && s[1] == '}' {
            parse_step(s.skip(2), buf.push('}'), ts, count)
        } else {
            Err(ErrorView::UnexpectedRightBrace)
        }
    } else {
        parse_step(s.skip(1), buf.push(s[0]), ts, count)
    }
}

/// What parsing a whole template yields: its tokens and its column count,
/// or the first error of the left-to-right scan.
pub open spec fn spec_parse(s: Seq<char>) -> Result<(Seq<TokenView>, nat), ErrorView> {
    parse_step(s, Seq::empty(), Seq::empty(), 0)
}

/// A template character as it appears inside a literal run: braces are
/// doubled, every other character stands for itself.
pub open spec fn escape_char(c: char) -> Seq<char> {
    if c == '{' {
        seq!['{', '{']
    } else if c == '}' {
        seq!['}', '}']
    } else {
        seq![c]
    }
}

/// Literal text written back in template syntax.
pub open spec fn spec_escape(s: Seq<char>) -> Seq<char>
    decreases s.len(),
{
    if s.len() == 0 {
        Seq::empty()
    } else {
        escape_char(s[0]) + spec_escape(s.skip(1))
    }
}

/// One token written back in template syntax.
pub open spec fn spec_token_str(t: TokenView) -> Seq<char> {
    match t {
        TokenView::Left => seq!['{', ':', '<', '}'],
        TokenView::Right => seq!['{', ':', '>', '}'],
        TokenView::Literal(s) => spec_escape(s),
    }
}

/// A token list written back as a template string.
pub open spec fn spec_serialize(ts: Seq<TokenView>) -> Seq<char>
    decreases ts.len(),
{
    if ts.len() == 0 {
        Seq::empty()
    } else {
        spec_token_str(ts[0]) + spec_serialize(ts.skip(1))
    }
}

/// Writes a token list back as a template string, doubling the braces inside
/// literal runs so that the result re-parses.
pub fn row_spec_to_string(specs: &[ColumnSpec]) -> (r: String)
    ensures
        r@ == spec_serialize(tokens_view(specs@)),
{
    let ghost tv = tokens_view(specs@);
    let mut result = String::new();
    let mut f: usize = 0;

    proof {
        assert(tv.skip(0) =~= tv);
        assert(result@ + spec_serialize(tv) =~= spec_serialize(tv));
    }
    while f < specs.len()
        invariant
            f <= specs.len(),
            tv == tokens_view(specs@),
            tv.len() == specs@.len(),
            result@ + spec_serialize(tv.skip(f as int)) == spec_serialize(tv),
        decreases specs.len() - f,
    {
        let ghost out0 = result@;
        proof {
            assert(tv.skip(f as int)[0] == tv[f as int]);
            assert(tv.skip(f as int).skip(1) =~= tv.skip(f as int + 1));
        }
        match &specs[f] {
            ColumnSpec::Left => {
                result.append("{:<}");
                proof {
                    reveal_strlit("{:<}");
                    assert("{:<}"@ =~= seq!['{', ':', '<', '}']);
                }
            },
            ColumnSpec::Right => {
                result.append("{:>}");
                proof {
                    reveal_strlit("{:>}");
                    assert("{:>}"@ =~= seq!['{', ':', '>', '}']);
                }
            },
            ColumnSpec::Literal(literal) => {
                let m = literal.as_str().unicode_len();
                let mut k: usize = 0;
                proof {
                    assert(literal@.skip(0) =~= literal@);
                }
                while k < m
                    invariant
                        k <= m,
                        m == literal@.len(),
                        result@ + spec_escape(literal@.skip(k as int)) == out0 + spec_escape(
                            literal@,
                        ),
                    decreases m - k,
                {
                    let ghost rem = literal@.skip(k as int);
                    proof {
                        assert(rem[0] == literal@[k as int]);
                        assert(rem.skip(1) =~= literal@.skip(k as int + 1));
                    }
                    let ghost mid = result@;
                    let c = literal.as_str().get_char(k);
                    if c == '{' {
                        push_char(&mut result, '{');
                        push_char(&mut result, '{');
                    } else if c == '}' {
                        push_char(&mut result, '}');
                        push_char(&mut result, '}');
                    } else {
                        push_char(&mut result, c);
                    }
                    proof {
                        assert(result@ =~= mid + escape_char(c));
                        assert(result@ + spec_escape(literal@.skip(k as int + 1)) =~= mid
                            + spec_escape(rem));
                    }
                    k = k + 1;
                }
                proof {
                    assert(literal@.skip(m as int) =~= Seq::<char>::empty());
                    assert(result@ + Seq::<char>::empty() =~= result@);
                }
            },
        }
        proof {
            assert(result@ =~= out0 + spec_token_str(tv[f as int]));
            assert(result@ + spec_serialize(tv.skip(f as int + 1)) =~= out0 + spec_serialize(
                tv.skip(f as int),
            ));
        }
        f = f + 1;
    }
    proof {
        assert(tv.skip(specs@.len() as int) =~= Seq::<TokenView>::empty());
        assert(result@ + Seq::<char>::empty() =~= result@);
    }
    result
}

/// Compiles a row template into its token list and column count.
///
/// Returns `Ok` exactly when the template conforms to the mini-language, and
/// otherwise the error for the first offending position.
pub fn parse_row_spec(template: &str) -> (r: Result<(Vec<ColumnSpec>, usize), Error>)
    ensures
        r matches Ok(p) ==> spec_parse(template@) == Ok::<_, ErrorView>(
            (tokens_view(p.0@), p.1 as nat),
        ),
        r matches Err(e) ==> spec_parse(template@) == Err::<(Seq<TokenView>, nat), _>(e@),
{
    let n = template.unicode_len();
    let mut toks: Vec<ColumnSpec> = Vec::new();
    let mut count: usize = 0;
    let mut buf: String = String::new();
    let mut i: usize = 0;

    proof {
        assert(template@.skip(0) =~= template@);
        assert(tokens_view(toks@) =~= Seq::<TokenView>::empty());
    }
    while i < n
        invariant
            i <= n,
            count <= i,
            n == template@.len(),
            spec_parse(template@) == parse_step(
                template@.skip(i as int),
                buf@,
                tokens_view(toks@),
                count as nat,
            ),
        decreases n - i,
    {
        let ghost rem = template@.skip(i as int);
        let ghost buf0 = buf@;
        let ghost toks0 = tokens_view(toks@);
        let ghost count0 = count as nat;
        proof {
            assert(rem.len() == n - i);
            assert(rem[0] == template@[i as int]);
            if i + 1 < n {
                assert(rem[1] == template@[i as int + 1]);
            }
            if i + 2 < n {
                assert(rem[2] == template@[i as int + 2]);
            }
            if i + 3 < n {
                assert(rem[3] == template@[i as int + 3]);
            }
        }
        let c = template.get_char(i);
        if c == '{' {
            if i + 1 >= n {
                return Err(Error::UnclosedColumnSpec(String::new()));
            }
            let c2 = template.get_char(i + 1);
            if c2 == '{' {
                push_char(&mut buf, '{');
                proof {
                    assert(rem.skip(2) =~= template@.skip(i + 2));
                    assert(parse_step(rem, buf0, toks0, count0) == parse_step(
                        template@.skip(i + 2),
                        buf@,
                        toks0,
                        count0,
                    ));
                }
                i = i + 2;
            } else if c2 == ':' {
                if i + 2 >= n {
                    let partial = String::from_str(":");
                    proof {
                        reveal_strlit(":");
                        assert(partial@ =~= seq![':']);
                    }
                    return Err(Error::UnclosedColumnSpec(partial));
                }
                let c3 = template.get_char(i + 2);
                if c3 == '<' || c3 == '>' {
                    if i + 3 >= n {
                        let mut partial = String::from_str(":");
                        push_char(&mut partial, c3);
                        proof {
                            reveal_strlit(":");
                            assert(partial@ =~= seq![':', c3]);
                        }
                        return Err(Error::UnclosedColumnSpec(partial));
                    }
                    let c4 = template.get_char(i + 3);
                    if c4 == '}' {
                        if !buf.as_str().is_empty() {
                            let ghost mid = tokens_view(toks@);
                            toks.push(ColumnSpec::Literal(buf));
                            proof {
                                assert(tokens_view(toks@) =~= mid.push(
                                    TokenView::Literal(buf@),
                                ));
                            }
                            buf = String::new();
                        }
                        let ghost mid = tokens_view(toks@);
                        if c3 == '<' {
                            toks.push(ColumnSpec::Left);
                        } else {
                            toks.push(ColumnSpec::Right);
                        }
                        count = count + 1;
                        proof {
                            let t = if c3 == '<' {
                                TokenView::Left
                            } else {
                                TokenView::Right
                            };
                            assert(tokens_view(toks@) =~= mid.push(t));
                            assert(buf@ =~= Seq::<char>::empty());
                            assert(tokens_view(toks@) =~= flush(toks0, buf0).push(t));
                            assert(rem.skip(4) =~= template@.skip(i + 4));
                            assert(parse_step(rem, buf0, toks0, count0) == parse_step(
                                template@.skip(i + 4),
                                buf@,
                                tokens_view(toks@),
                                count as nat,
                            ));
                        }
                        i = i + 4;
                    } else {
                        return Err(Error::UnexpectedCharacter(c4));
                    }
                } else {
                    let mut contents = String::from_str(":");
                    push_char(&mut contents, c3);
                    proof {
                        reveal_strlit(":");
                        assert(contents@ =~= seq![':', c3]);
                    }
                    return Err(Error::BadColumnSpec(contents));
                }
            } else {
                return Err(Error::UnexpectedCharacter(c2));
            }
        } else if c == '}' {
            if i + 1 < n {
                let c2 = template.get_char(i + 1);
                if c2 == '}' {
                    push_char(&mut buf, '}');
                    proof {
                        assert(rem.skip(2) =~= template@.skip(i + 2));
                        assert(parse_step(rem, buf0, toks0, count0) == parse_step(
                            template@.skip(i + 2),
                            buf@,
                            toks0,
                            count0,
                        ));
                    }
                    i = i + 2;
                } else {
                    return Err(Error::UnexpectedRightBrace);
                }
            } else {
                return Err(Error::UnexpectedRightBrace);
            }
        } else {
            push_char(&mut buf, c);
            proof {
                assert(rem.skip(1) =~= template@.skip(i + 1));
                assert(parse_step(rem, buf0, toks0, count0) == parse_step(
                    template@.skip(i + 1),
                    buf@,
                    toks0,
                    count0,
                ));
            }
            i = i + 1;
        }
    }
    proof {
        assert(template@.skip(n as int) =~= Seq::<char>::empty());
    }
    let ghost pre_toks = tokens_view(toks@);
    let ghost pre_buf = buf@;
    if !buf.as_str().is_empty() {
        toks.push(ColumnSpec::Literal(buf));
    }
    proof {
        assert(tokens_view(toks@) =~= flush(pre_toks, pre_buf));
    }
    Ok((toks, count))
}

/// The shape of every token list the parser produces: literal runs are
/// non-empty and are immediately followed by an alignment token, so no two
/// literal runs are adjacent.
pub open spec fn normalized(ts: Seq<TokenView>) -> bool {
    forall|i: int|
        0 <= i < ts.len() ==> (#[trigger] ts[i] matches TokenView::Literal(s) ==> s.len() > 0 && (i
            + 1 < ts.len() ==> is_align(ts[i + 1])))
}

proof fn lemma_align_count_push(ts: Seq<TokenView>, t: TokenView)
    ensures
        spec_align_count(ts.push(t)) == spec_align_count(ts) + if is_align(t) {
            1nat
        } else {
            0nat
        },
    decreases ts.len(),
{
    if ts.len() == 0 {
        assert(ts.push(t)[0] == t);
        assert(ts.push(t).skip(1) =~= Seq::<TokenView>::empty());
        assert(spec_align_count(Seq::<TokenView>::empty()) == 0);
        assert(spec_align_count(ts) == 0);
    } else {
        assert(ts.push(t)[0] == ts[0]);
        assert(ts.push(t).skip(1) =~= ts.skip(1).push(t));
        lemma_align_count_push(ts.skip(1), t);
        assert(spec_align_count(ts.push(t)) == (if is_align(ts[0]) {
            1nat
        } else {
            0nat
        }) + spec_align_count(ts.skip(1).push(t)));
    }
}

proof fn lemma_normalized_skip(ts: Seq<TokenView>)
    requires
        normalized(ts),
        ts.len() > 0,
    ensures
        normalized(ts.skip(1)),
{
    assert forall|i: int|
        0 <= i < ts.skip(1).len() implies (#[trigger] ts.skip(1)[i] matches TokenView::Literal(s)
        ==> s.len() > 0 && (i + 1 < ts.skip(1).len() ==> is_align(ts.skip(1)[i + 1]))) by {
        assert(ts.skip(1)[i] == ts[i + 1]);
        if i + 2 < ts.len() {
            assert(ts.skip(1)[i + 1] == ts[i + 2]);
        }
    }
}

proof fn lemma_parse_escape(s: Seq<char>, rest: Seq<char>, buf: Seq<char>, ts: Seq<TokenView>, count: nat)
    ensures
        parse_step(spec_escape(s) + rest, buf, ts, count) == parse_step(rest, buf + s, ts, count),
    decreases s.len(),
{
    if s.len() == 0 {
        assert(spec_escape(s) + rest =~= rest);
        assert(buf + s =~= buf);
    } else {
        let c = s[0];
        let tail = s.skip(1);
        let full = spec_escape(s) + rest;
        assert(full =~= escape_char(c) + (spec_escape(tail) + rest));
        assert(buf.push(c) + tail =~= buf + s);
        if c == '{' {
            assert(full[0] == '{' && full[1] == '{');
            assert(full.skip(2) =~= spec_escape(tail) + rest);
            lemma_parse_escape(tail, rest, buf.push(c), ts, count);
        } else if c == '}' {
            assert(full[0] == '}' && full[1] == '}');
            assert(full.skip(2) =~= spec_escape(tail) + rest);
            lemma_parse_escape(tail, rest, buf.push(c), ts, count);
        } else {
            assert(full[0] == c);
            assert(full.skip(1) =~= spec_escape(tail) + rest);
            lemma_parse_escape(tail, rest, buf.push(c), ts, count);
        }
    }
}

proof fn lemma_parse_serialize_step(l: Seq<TokenView>, buf: Seq<char>, ts: Seq<TokenView>, count: nat)
    requires
        normalized(l),
        l.len() > 0 && l[0] is Literal ==> buf.len() == 0,
    ensures
        parse_step(spec_serialize(l), buf, ts, count) == Ok::<_, ErrorView>(
            (
                if l.len() == 0 {
                    flush(ts, buf)
                } else {
                    flush(ts, buf) + l
                },
                count + spec_align_count(l),
            ),
        ),
    decreases l.len(),
{
    if l.len() == 0 {
        assert(spec_serialize(l) =~= Seq::<char>::empty());
    } else {
        let l1 = l.skip(1);
        lemma_normalized_skip(l);
        let full = spec_serialize(l);
        match l[0] {
            TokenView::Left => {
                assert(full =~= seq!['{', ':', '<', '}'] + spec_serialize(l1));
                assert(full[0] == '{' && full[1] == ':' && full[2] == '<' && full[3] == '}');
                assert(full.skip(4) =~= spec_serialize(l1));
                let ts2 = flush(ts, buf).push(TokenView::Left);
                lemma_parse_serialize_step(l1, Seq::empty(), ts2, count + 1);
                assert(flush(ts2, Seq::empty()) == ts2);
                if l1.len() == 0 {
                    assert(flush(ts, buf) + l =~= ts2);
                } else {
                    assert(flush(ts, buf) + l =~= ts2 + l1);
                }
            },
            TokenView::Right => {
                assert(full =~= seq!['{', ':', '>', '}'] + spec_serialize(l1));
                assert(full[0] == '{' && full[1] == ':' && full[2] == '>' && full[3] == '}');
                assert(full.skip(4) =~= spec_serialize(l1));
                let ts2 = flush(ts, buf).push(TokenView::Right);
                lemma_parse_serialize_step(l1, Seq::empty(), ts2, count + 1);
                assert(flush(ts2, Seq::empty()) == ts2);
                if l1.len() == 0 {
                    assert(flush(ts, buf) + l =~= ts2);
                } else {
                    assert(flush(ts, buf) + l =~= ts2 + l1);
                }
            },
            TokenView::Literal(s) => {
                assert(s.len() > 0);
                assert(full =~= spec_escape(s) + spec_serialize(l1));
                lemma_parse_escape(s, spec_serialize(l1), buf, ts, count);
                assert(buf + s =~= s);
                if l1.len() == 0 {
                    assert(spec_serialize(l1) =~= Seq::<char>::empty());
                    assert(flush(ts, s) == ts.push(TokenView::Literal(s)));
                    assert(flush(ts, buf) + l =~= ts.push(TokenView::Literal(s)));
                } else {
                    assert(is_align(l[1]));
                    assert(l1[0] == l[1]);
                    lemma_parse_serialize_step(l1, s, ts, count);
                    assert(flush(ts, s) == ts.push(TokenView::Literal(s)));
                    assert(flush(ts, buf) + l =~= ts.push(TokenView::Literal(s)) + l1);
                }
            },
        }
    }
}

proof fn lemma_parse_step_normalized(s: Seq<char>, buf: Seq<char>, ts: Seq<TokenView>, count: nat)
    requires
        normalized(ts),
        ts.len() > 0 ==> !(ts.last() is Literal),
        count == spec_align_count(ts),
    ensures
        parse_step(s, buf, ts, count) matches Ok(p) ==> normalized(p.0) && p.1
            == spec_align_count(p.0),
    decreases s.len(),
{
    if s.len() == 0 {
        if buf.len() > 0 {
            let ts2 = ts.push(TokenView::Literal(buf));
            assert forall|i: int|
                0 <= i < ts2.len() implies (#[trigger] ts2[i] matches TokenView::Literal(t)
                ==> t.len() > 0 && (i + 1 < ts2.len() ==> is_align(ts2[i + 1]))) by {
                if i < ts.len() {
                    assert(ts2[i] == ts[i]);
                    if i + 1 < ts.len() {
                        assert(ts2[i + 1] == ts[i + 1]);
                    } else if i + 1 == ts.len() {
                        assert(ts[i] == ts.last());
                    }
                }
            }
            lemma_align_count_push(ts, TokenView::Literal(buf));
        }
    } else if s[0] == '{' {
        if s.len() == 1 {
        } else if s[1] == '{' {
            lemma_parse_step_normalized(s.skip(2), buf.push('{'), ts, count);
        } else if s[1] == ':' {
            if s.len() == 2 {
            } else if s[2] == '<' || s[2] == '>' {
                if s.len() == 3 {
                } else if s[3] == '}' {
                    let t = if s[2] == '<' {
                        TokenView::Left
                    } else {
                        TokenView::Right
                    };
                    let ts1 = flush(ts, buf);
                    let ts2 = ts1.push(t);
                    assert forall|i: int|
                        0 <= i < ts2.len() implies (#[trigger] ts2[i] matches TokenView::Literal(u)
                        ==> u.len() > 0 && (i + 1 < ts2.len() ==> is_align(ts2[i + 1]))) by {
                        if i < ts.len() {
                            assert(ts2[i] == ts[i]);
                            if i + 1 < ts.len() {
                                assert(ts2[i + 1] == ts[i + 1]);
                            } else if i + 1 == ts.len() {
                                assert(ts[i] == ts.last());
                            }
                        }
                    }
                    if buf.len() > 0 {
                        lemma_align_count_push(ts, TokenView::Literal(buf));
                    }
                    lemma_align_count_push(ts1, t);
                    lemma_parse_step_normalized(s.skip(4), Seq::empty(), ts2, count + 1);
                }
            }
        }
    } else if s[0] == '}' {
        if s.len() >= 2 && s[1] == '}' {
            lemma_parse_step_normalized(s.skip(2), buf.push('}'), ts, count);
        }
    } else {
        lemma_parse_step_normalized(s.skip(1), buf.push(s[0]), ts, count);
    }
}

/// A normalized token list, written back as a template and re-parsed, yields
/// exactly itself together with its alignment-token count.
pub proof fn lemma_serialize_then_parse(ts: Seq<TokenView>)
    requires
        normalized(ts),
    ensures
        spec_parse(spec_serialize(ts)) == Ok::<_, ErrorView>((ts, spec_align_count(ts))),
{
    lemma_parse_serialize_step(ts, Seq::empty(), Seq::empty(), 0);
    assert(flush(Seq::empty(), Seq::empty()) =~= Seq::<TokenView>::empty());
    if ts.len() > 0 {
        assert(flush(Seq::empty(), Seq::empty()) + ts =~= ts);
        assert(parse_step(spec_serialize(ts), Seq::empty(), Seq::empty(), 0)
            == Ok::<_, ErrorView>((ts, 0 + spec_align_count(ts))));
    } else {
        assert(flush(Seq::empty(), Seq::empty()) =~= ts);
    }
    assert(0 + spec_align_count(ts) == spec_align_count(ts));
}

/// The column count that parsing returns is exactly the number of alignment
/// tokens in the returned token list, and that list is normalized.
pub proof fn lemma_parse_column_count(template: Seq<char>, ts: Seq<TokenView>, n: nat)
    requires
        spec_parse(template) == Ok::<_, ErrorView>((ts, n)),
    ensures
        n == spec_align_count(ts),
        normalized(ts),
{
    lemma_parse_step_normalized(template, Seq::empty(), Seq::empty(), 0);
}

/// Parser round trip: whatever token list parsing a template yields, writing
/// that list back as a template and re-parsing reproduces the same token list
/// and the same column count.
pub proof fn lemma_parse_round_trip(template: Seq<char>, ts: Seq<TokenView>, n: nat)
    requires
        spec_parse(template) == Ok::<_, ErrorView>((ts, n)),
    ensures
        spec_parse(spec_serialize(ts)) == Ok::<_, ErrorView>((ts, spec_align_count(ts))),
        n == spec_align_count(ts),
        normalized(ts),
{
    lemma_parse_step_normalized(template, Seq::empty(), Seq::empty(), 0);
    lemma_serialize_then_parse(ts);
}

} // verus!
