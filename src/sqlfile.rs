//! The two lexers: the statement splitter, the query collector and the
//! annotation tokenizer.
use std::collections::VecDeque;
use vstd::prelude::*;
use crate::text::{
    alphanumeric_of, chars_of, is_alphanumeric_char, is_control, is_control_char,
    is_whitespace_char, push_char, push_text, whitespace_of,
};

verus! {

/// One segment of a query file, as the statement splitter produces it.
#[derive(Debug, PartialEq, Clone)]
pub enum Thing {
    Comment(String),
    Sql(String),
    EndOfQuery(),
}

/// What a `Thing` holds, as values.
pub enum Segment {
    Comment(Seq<char>),
    Sql(Seq<char>),
    End,
}

impl View for Thing {
    type V = Segment;

    open spec fn view(&self) -> Segment {
        match self {
            Thing::Comment(t) => Segment::Comment(t@),
            Thing::Sql(t) => Segment::Sql(t@),
            Thing::EndOfQuery() => Segment::End,
        }
    }
}

pub open spec fn segments_view(v: Seq<Thing>) -> Seq<Segment> {
    v.map_values(|t: Thing| t@)
}

proof fn lemma_segments_push(v: Seq<Thing>, t: Thing)
    ensures
        segments_view(v.push(t)) == segments_view(v).push(t@),
{
    assert(segments_view(v.push(t)) =~= segments_view(v).push(t@));
}

/// A file that does not end in a completed statement.
#[derive(Debug)]
pub struct SyntaxError {}

/// The three quoting flags shared by both lexers.
#[derive(Debug, Clone, Copy)]
pub struct Quotes {
    pub double: bool,
    pub single: bool,
    pub backtick: bool,
}

impl Quotes {
    pub open spec fn open_any(self) -> bool {
        self.double || self.single || self.backtick
    }

    pub open spec fn closed() -> Quotes {
        Quotes { double: false, single: false, backtick: false }
    }
}

/// The quoting state after `c`. An escaped delimiter (preceded by `\`) changes
/// nothing; a delimiter inside a quote of another kind changes nothing.
pub open spec fn quote_after(q: Quotes, c: char, escaped: bool) -> Quotes {
    if escaped {
        q
    } else if c == '"' && !q.single && !q.backtick {
        Quotes { double: !q.double, ..q }
    } else if c == '\'' && !q.double && !q.backtick {
        Quotes { single: !q.single, ..q }
    } else if c == '`' && !q.double && !q.single {
        Quotes { backtick: !q.backtick, ..q }
    } else {
        q
    }
}

pub fn next_quotes(q: Quotes, c: char, escaped: bool) -> (r: Quotes)
    ensures
        r == quote_after(q, c, escaped),
{
    if escaped {
        q
    } else if c == '"' && !q.single && !q.backtick {
        Quotes { double: !q.double, ..q }
    } else if c == '\'' && !q.double && !q.backtick {
        Quotes { single: !q.single, ..q }
    } else if c == '`' && !q.double && !q.single {
        Quotes { backtick: !q.backtick, ..q }
    } else {
        q
    }
}

pub open spec fn escaped_at(s: Seq<char>, i: int) -> bool {
    i > 0 && s[i - 1] == '\\'
}

pub open spec fn comment_starts_at(s: Seq<char>, i: int) -> bool {
    s[i] == '-' && i + 1 < s.len() && s[i + 1] == '-'
}

/// The statement splitter's state part way through a text.
pub struct SplitState {
    pub quotes: Quotes,
    pub in_comment: bool,
    pub skip_dash: bool,
    pub cur: Seq<char>,
    pub out: Seq<Segment>,
}

/// The splitter's state after reading `s[i]`.
pub open spec fn split_step(st: SplitState, s: Seq<char>, i: int) -> SplitState {
    let c = s[i];
    if st.in_comment {
        if c == '\n' {
            SplitState {
                in_comment: false,
                cur: Seq::empty(),
                out: st.out.push(Segment::Comment(st.cur)),
                ..st
            }
        } else if !is_control(c) && !st.skip_dash {
            SplitState { cur: st.cur.push(c), skip_dash: false, ..st }
        } else {
            SplitState { skip_dash: false, ..st }
        }
    } else if !st.quotes.open_any() && comment_starts_at(s, i) {
        SplitState {
            in_comment: true,
            skip_dash: true,
            cur: Seq::empty(),
            out: if st.cur.len() > 0 {
                st.out.push(Segment::Sql(st.cur))
            } else {
                st.out
            },
            ..st
        }
    } else {
        let q = quote_after(st.quotes, c, escaped_at(s, i));
        if !q.open_any() && c == ';' {
            SplitState {
                quotes: q,
                cur: Seq::empty(),
                out: st.out.push(Segment::Sql(st.cur)).push(Segment::End),
                ..st
            }
        } else if !q.open_any() && is_control(c) {
            SplitState { quotes: q, ..st }
        } else {
            SplitState { quotes: q, cur: st.cur.push(c), ..st }
        }
    }
}

/// The splitter's state after the first `n` characters of `s`.
pub open spec fn split_prefix(s: Seq<char>, n: nat) -> SplitState
    decreases n,
{
    if n == 0 {
        SplitState {
            quotes: Quotes::closed(),
            in_comment: false,
            skip_dash: false,
            cur: Seq::empty(),
            out: Seq::empty(),
        }
    } else {
        split_step(split_prefix(s, (n - 1) as nat), s, n - 1)
    }
}

/// All segments of `s`: those emitted during the scan, then the pending
/// comment or fragment, if any.
pub open spec fn split_segments(s: Seq<char>) -> Seq<Segment> {
    let st = split_prefix(s, s.len());
    if st.in_comment {
        st.out.push(Segment::Comment(st.cur))
    } else if !all_blank(st.cur) {
        st.out.push(Segment::Sql(st.cur))
    } else {
        st.out
    }
}

/// Every character of `t` is white space.
pub open spec fn all_blank(t: Seq<char>) -> bool {
    forall|i: int| 0 <= i < t.len() ==> whitespace_of(#[trigger] t[i])
}

fn is_blank(t: &String) -> (r: bool)
    ensures
        r == all_blank(t@),
{
    let cs = chars_of(t.as_str());
    let mut i: usize = 0;
    while i < cs.len()
        invariant
            cs@ == t@,
            i <= cs@.len(),
            forall|j: int| 0 <= j < i ==> whitespace_of(cs@[j]),
        decreases cs@.len() - i,
    {
        if !is_whitespace_char(cs[i]) {
            return false;
        }
        i = i + 1;
    }
    true
}

/// A file whose scan ends outside a comment with a statement fragment that
/// holds more than white space, a statement missing its `;`, is refused.
pub proof fn lemma_unterminated_statement_fails(s: Seq<char>)
    requires
        !split_prefix(s, s.len()).in_comment,
        !all_blank(split_prefix(s, s.len()).cur),
    ensures
        !is_terminated(split_segments(s)),
{
}

/// The last segment that is not a comment.
pub open spec fn last_statement_part(segs: Seq<Segment>) -> Option<Segment>
    decreases segs.len(),
{
    if segs.len() == 0 {
        None
    } else if segs.last() is Comment {
        last_statement_part(segs.drop_last())
    } else {
        Some(segs.last())
    }
}

/// Once comments are disregarded, the segments end with a completed statement.
pub open spec fn is_terminated(segs: Seq<Segment>) -> bool {
    match last_statement_part(segs) {
        None => true,
        Some(t) => t is End,
    }
}

fn ends_terminated(v: &VecDeque<Thing>) -> (r: bool)
    ensures
        r == is_terminated(segments_view(v@)),
{
    let ghost segs = segments_view(v@);
    let mut j: usize = v.len();
    assert(segs.take(j as int) =~= segs);
    while j > 0 && matches!(v[j - 1], Thing::Comment(_))
        invariant
            j <= v@.len(),
            segs == segments_view(v@),
            last_statement_part(segs.take(j as int)) == last_statement_part(segs),
        decreases j,
    {
        assert(segs.take(j as int).drop_last() =~= segs.take(j - 1));
        j = j - 1;
    }
    if j == 0 {
        assert(segs.take(0) =~= Seq::<Segment>::empty());
        true
    } else {
        assert(segs.take(j as int).last() == segs[j - 1]);
        matches!(v[j - 1], Thing::EndOfQuery())
    }
}

/// Splits a query file into comments, SQL fragments and statement ends.
pub fn lex(text: String) -> (r: Result<VecDeque<Thing>, SyntaxError>)
    ensures
        match r {
            Ok(v) => is_terminated(split_segments(text@)) && segments_view(v@) == split_segments(text@),
            Err(_) => !is_terminated(split_segments(text@)),
        },
{
    let s = chars_of(text.as_str());
    let ghost gs = s@;
    let mut quotes = Quotes { double: false, single: false, backtick: false };
    let mut in_comment = false;
    let mut skip_dash = false;
    let mut cur = String::new();
    let mut out: VecDeque<Thing> = VecDeque::new();
    let mut i: usize = 0;
    assert(segments_view(out@) =~= Seq::<Segment>::empty());
    while i < s.len()
        invariant
            gs == s@,
            gs == text@,
            i <= s.len(),
            split_prefix(gs, i as nat) == (SplitState {
                quotes,
                in_comment,
                skip_dash,
                cur: cur@,
                out: segments_view(out@),
            }),
        decreases s.len() - i,
    {
        let c = s[i];
        proof {
            lemma_segments_push(out@, Thing::Comment(cur));
            lemma_segments_push(out@, Thing::Sql(cur));
            lemma_segments_push(out@.push(Thing::Sql(cur)), Thing::EndOfQuery());
        }
        if in_comment {
            if c == '\n' {
                in_comment = false;
                out.push_back(Thing::Comment(cur));
                cur = String::new();
            } else {
                if !is_control_char(c) && !skip_dash {
                    push_char(&mut cur, c);
                }
                skip_dash = false;
            }
        } else if !(quotes.double || quotes.single || quotes.backtick) && c == '-' && i + 1
            < s.len() && s[i + 1] == '-' {
            if !cur.as_str().is_empty() {
                out.push_back(Thing::Sql(cur));
            }
            cur = String::new();
            in_comment = true;
            skip_dash = true;
        } else {
            quotes = next_quotes(quotes, c, i > 0 && s[i - 1] == '\\');
            let open = quotes.double || quotes.single || quotes.backtick;
            if !open && c == ';' {
                out.push_back(Thing::Sql(cur));
                out.push_back(Thing::EndOfQuery());
                cur = String::new();
            } else if !open && is_control_char(c) {
            } else {
                push_char(&mut cur, c);
            }
        }
        i = i + 1;
    }
    proof {
        lemma_segments_push(out@, Thing::Comment(cur));
        lemma_segments_push(out@, Thing::Sql(cur));
    }
    if in_comment {
        out.push_back(Thing::Comment(cur));
    } else if !is_blank(&cur) {
        out.push_back(Thing::Sql(cur));
    }
    if ends_terminated(&out) {
        Ok(out)
    } else {
        Err(SyntaxError {})
    }
}

/// One piece of a query's text, as the annotation tokenizer produces it.
#[derive(Debug, Clone)]
pub enum SqlToken {
    Sql(String),
    /// A declared result column: name and type name.
    Return(String, String),
    /// A bound parameter: name and type name.
    Variable(String, String),
}

/// What a `SqlToken` holds, as values.
pub enum Token {
    Sql(Seq<char>),
    Return(Seq<char>, Seq<char>),
    Variable(Seq<char>, Seq<char>),
}

impl View for SqlToken {
    type V = Token;

    open spec fn view(&self) -> Token {
        match self {
            SqlToken::Sql(t) => Token::Sql(t@),
            SqlToken::Return(n, t) => Token::Return(n@, t@),
            SqlToken::Variable(n, t) => Token::Variable(n@, t@),
        }
    }
}

pub open spec fn tokens_view(v: Seq<SqlToken>) -> Seq<Token> {
    v.map_values(|t: SqlToken| t@)
}

proof fn lemma_tokens_push(v: Seq<SqlToken>, t: SqlToken)
    ensures
        tokens_view(v.push(t)) == tokens_view(v).push(t@),
{
    assert(tokens_view(v.push(t)) =~= tokens_view(v).push(t@));
}

/// A character that may stand in a type name.
pub open spec fn is_type_char(c: char) -> bool {
    !whitespace_of(c) && (alphanumeric_of(c) || c == '_' || c == '?')
}

fn type_char(c: char) -> (r: bool)
    ensures
        r == is_type_char(c),
{
    !is_whitespace_char(c) && (is_alphanumeric_char(c) || c == '_' || c == '?')
}

/// The tokenizer's state part way through a text.
pub struct TokState {
    pub quotes: Quotes,
    pub in_variable: bool,
    pub in_return: bool,
    pub past_colon: bool,
    pub found_char: bool,
    pub cur: Seq<char>,
    pub ty_name: Seq<char>,
    pub out: Seq<Token>,
}

impl TokState {
    pub open spec fn in_placeholder(self) -> bool {
        self.in_variable || self.in_return
    }

    /// The placeholder being read, closed as it stands.
    pub open spec fn placeholder(self) -> Token {
        if self.in_return {
            Token::Return(self.cur, self.ty_name)
        } else {
            Token::Variable(self.cur, self.ty_name)
        }
    }
}

/// The tokenizer's state after reading `s[i]`.
pub open spec fn tok_step(st: TokState, s: Seq<char>, i: int) -> TokState {
    let c = s[i];
    if st.in_placeholder() {
        if !st.past_colon {
            if c == ':' && !escaped_at(s, i) {
                TokState { past_colon: true, ..st }
            } else {
                TokState { cur: st.cur.push(c), ..st }
            }
        } else if st.found_char {
            if is_type_char(c) {
                TokState { ty_name: st.ty_name.push(c), ..st }
            } else {
                TokState {
                    out: st.out.push(st.placeholder()),
                    cur: seq![c],
                    ty_name: Seq::empty(),
                    in_variable: false,
                    in_return: false,
                    past_colon: false,
                    ..st
                }
            }
        } else if is_type_char(c) {
            TokState { ty_name: st.ty_name.push(c), found_char: true, ..st }
        } else {
            TokState {
                cur: pending_text(st).push(c),
                ty_name: Seq::empty(),
                in_variable: false,
                in_return: false,
                past_colon: false,
                ..st
            }
        }
    } else {
        let q = quote_after(st.quotes, c, escaped_at(s, i));
        if !q.open_any() && (c == '$' || c == '@') {
            TokState {
                quotes: q,
                out: st.out.push(Token::Sql(st.cur)),
                cur: Seq::empty(),
                ty_name: Seq::empty(),
                in_variable: c == '$',
                in_return: c == '@',
                past_colon: false,
                found_char: false,
                ..st
            }
        } else {
            TokState { quotes: q, cur: st.cur.push(c), ..st }
        }
    }
}

/// The tokenizer's state after the first `n` characters of `s`.
pub open spec fn tok_prefix(s: Seq<char>, n: nat) -> TokState
    decreases n,
{
    if n == 0 {
        TokState {
            quotes: Quotes::closed(),
            in_variable: false,
            in_return: false,
            past_colon: false,
            found_char: false,
            cur: Seq::empty(),
            ty_name: Seq::empty(),
            out: Seq::empty(),
        }
    } else {
        tok_step(tok_prefix(s, (n - 1) as nat), s, n - 1)
    }
}

/// A placeholder still open at the end of `s` that has its type name.
pub open spec fn closes_at_end(st: TokState) -> bool {
    st.in_placeholder() && st.past_colon && st.found_char
}

/// The tokens of `s`. A placeholder open at the end closes there when it has a
/// type name and stays literal text when it has none; the tokens end with the
/// text after the last placeholder.
pub open spec fn tokens_of(s: Seq<char>) -> Seq<Token> {
    let st = tok_prefix(s, s.len());
    if st.in_placeholder() {
        if closes_at_end(st) {
            st.out.push(st.placeholder()).push(Token::Sql(Seq::empty()))
        } else {
            st.out.push(Token::Sql(pending_text(st)))
        }
    } else {
        st.out.push(Token::Sql(st.cur))
    }
}

/// The text of an open placeholder past its colon: marker, name, `:`, type name.
fn open_text(in_return: bool, name: &String, ty: &String) -> (r: String)
    ensures
        r@ == seq![if in_return { '@' } else { '$' }] + name@ + (seq![':'] + ty@),
{
    let mut r = String::new();
    push_char(&mut r, if in_return { '@' } else { '$' });
    push_text(&mut r, name.as_str());
    push_char(&mut r, ':');
    push_text(&mut r, ty.as_str());
    assert(r@ =~= seq![if in_return { '@' } else { '$' }] + name@ + (seq![':'] + ty@));
    r
}

/// The text of an open placeholder before its colon: marker and name.
fn open_text_before_colon(in_return: bool, name: &String) -> (r: String)
    ensures
        r@ == seq![if in_return { '@' } else { '$' }] + name@ + Seq::<char>::empty(),
{
    let mut r = String::new();
    push_char(&mut r, if in_return { '@' } else { '$' });
    push_text(&mut r, name.as_str());
    assert(r@ =~= seq![if in_return { '@' } else { '$' }] + name@ + Seq::<char>::empty());
    r
}

/// Splits one query's text into literal SQL, bound parameters (`$name:type`)
/// and result columns (`@name:type`).
pub fn lex_sql(sql: String) -> (r: Vec<SqlToken>)
    ensures
        tokens_view(r@) == tokens_of(sql@),
{
    let s = chars_of(sql.as_str());
    let ghost gs = s@;
    let mut quotes = Quotes { double: false, single: false, backtick: false };
    let mut in_variable = false;
    let mut in_return = false;
    let mut past_colon = false;
    let mut found_char = false;
    let mut out: Vec<SqlToken> = Vec::new();
    let mut current = String::new();
    let mut ty_name = String::new();
    let mut i: usize = 0;
    assert(tokens_view(out@) =~= Seq::<Token>::empty());
    while i < s.len()
        invariant
            gs == s@,
            gs == sql@,
            i <= s.len(),
            ({
                let st = tok_prefix(gs, i as nat);
                &&& st.quotes == quotes
                &&& st.in_variable == in_variable
                &&& st.in_return == in_return
                &&& st.past_colon == past_colon
                &&& st.found_char == found_char
                &&& st.cur == current@
                &&& st.ty_name == ty_name@
                &&& st.out == tokens_view(out@)
            }),
        decreases s.len() - i,
    {
        let c = s[i];
        let escaped = i > 0 && s[i - 1] == '\\';
        proof {
            lemma_tokens_push(out@, SqlToken::Sql(current));
            lemma_tokens_push(out@, SqlToken::Return(current, ty_name));
            lemma_tokens_push(out@, SqlToken::Variable(current, ty_name));
        }
        if in_variable || in_return {
            if !past_colon {
                if c == ':' && !escaped {
                    past_colon = true;
                } else {
                    push_char(&mut current, c);
                }
            } else if found_char {
                if type_char(c) {
                    push_char(&mut ty_name, c);
                } else {
                    if in_return {
                        out.push(SqlToken::Return(current, ty_name));
                    } else {
                        out.push(SqlToken::Variable(current, ty_name));
                    }
                    current = String::new();
                    push_char(&mut current, c);
                    assert(current@ =~= seq![c]);
                    ty_name = String::new();
                    in_variable = false;
                    in_return = false;
                    past_colon = false;
                }
            } else if type_char(c) {
                push_char(&mut ty_name, c);
                found_char = true;
            } else {
                let lit = open_text(in_return, &current, &ty_name);
                current = lit;
                push_char(&mut current, c);
                ty_name = String::new();
                in_variable = false;
                in_return = false;
                past_colon = false;
            }
        } else {
            quotes = next_quotes(quotes, c, escaped);
            if !(quotes.double || quotes.single || quotes.backtick) && (c == '$' || c == '@') {
                out.push(SqlToken::Sql(current));
                current = String::new();
                ty_name = String::new();
                in_variable = c == '$';
                in_return = c == '@';
                past_colon = false;
                found_char = false;
            } else {
                push_char(&mut current, c);
            }
        }
        i = i + 1;
    }
    proof {
        lemma_tokens_push(out@, SqlToken::Sql(current));
        lemma_tokens_push(out@, SqlToken::Return(current, ty_name));
        lemma_tokens_push(out@, SqlToken::Variable(current, ty_name));
    }
    if in_variable || in_return {
        if past_colon && found_char {
            if in_return {
                out.push(SqlToken::Return(current, ty_name));
            } else {
                out.push(SqlToken::Variable(current, ty_name));
            }
            let tail = SqlToken::Sql(String::new());
            proof {
                lemma_tokens_push(out@, tail);
            }
            out.push(tail);
        } else {
            let lit = if past_colon {
                open_text(in_return, &current, &ty_name)
            } else {
                open_text_before_colon(in_return, &current)
            };
            proof {
                lemma_tokens_push(out@, SqlToken::Sql(lit));
            }
            out.push(SqlToken::Sql(lit));
        }
    } else {
        out.push(SqlToken::Sql(current));
    }
    out
}

/// A statement group whose leading segment is not a `#name` comment.
#[derive(Debug)]
pub struct FormatError;

/// The named queries collected so far: qualified name and raw text, in the
/// order in which each name first appeared.
pub open spec fn entries_view(v: Seq<(String, String)>) -> Seq<(Seq<char>, Seq<char>)> {
    v.map_values(|e: (String, String)| (e.0@, e.1@))
}

/// No name appears twice.
pub open spec fn keys_unique(m: Seq<(Seq<char>, Seq<char>)>) -> bool {
    forall|i: int, j: int| 0 <= i < m.len() && 0 <= j < m.len() && m[i].0 == m[j].0 ==> i == j
}

/// `t` appended to the entry named `k`, which is created empty if new.
pub open spec fn append_entry(m: Seq<(Seq<char>, Seq<char>)>, k: Seq<char>, t: Seq<char>) -> Seq<
    (Seq<char>, Seq<char>),
> {
    if exists|i: int| 0 <= i < m.len() && m[i].0 == k {
        let i = choose|i: int| 0 <= i < m.len() && m[i].0 == k;
        m.update(i, (k, m[i].1 + t))
    } else {
        m.push((k, t))
    }
}

/// `t` without its leading spaces.
pub open spec fn skip_spaces(t: Seq<char>) -> Seq<char>
    decreases t.len(),
{
    if t.len() > 0 && t[0] == ' ' {
        skip_spaces(t.skip(1))
    } else {
        t
    }
}

/// The name that a comment declares: what follows its `#` marker, which may
/// stand after spaces. `None` when the comment has no marker.
pub open spec fn declared_name(t: Seq<char>) -> Option<Seq<char>> {
    let u = skip_spaces(t);
    if u.len() > 0 && u[0] == '#' {
        Some(u.skip(1))
    } else {
        None
    }
}

/// The key under which a query of a file is kept: file stem, `_`, name.
pub open spec fn qualified(file: Seq<char>, name: Seq<char>) -> Seq<char> {
    file + seq!['_'] + name
}

/// The position after the first statement end at or after `q`, or the end.
pub open spec fn group_end(segs: Seq<Segment>, q: int) -> int
    decreases segs.len() - q,
{
    if q >= segs.len() {
        segs.len() as int
    } else if segs[q] is End {
        q + 1
    } else {
        group_end(segs, q + 1)
    }
}

pub open spec fn sql_of(t: Segment) -> Seq<char> {
    match t {
        Segment::Sql(x) => x,
        _ => Seq::empty(),
    }
}

/// The SQL fragments of `segs[a..b]`, concatenated.
pub open spec fn sql_between(segs: Seq<Segment>, a: int, b: int) -> Seq<char>
    decreases b - a,
{
    if b <= a {
        Seq::empty()
    } else {
        sql_between(segs, a, b - 1) + sql_of(segs[b - 1])
    }
}

/// The mapping after collecting the statement groups of `segs` from `p` on.
/// `None` is a format error.
pub open spec fn collect_from(
    file: Seq<char>,
    segs: Seq<Segment>,
    p: int,
    base: Seq<(Seq<char>, Seq<char>)>,
) -> Option<Seq<(Seq<char>, Seq<char>)>>
    decreases segs.len() - p,
{
    if p < 0 || p >= segs.len() {
        Some(base)
    } else {
        match segs[p] {
            Segment::Comment(t) => match declared_name(t) {
                None => None,
                Some(n) => if n.len() == 0 {
                    Some(base)
                } else {
                    let e = group_end(segs, p + 1);
                    let next = append_entry(base, qualified(file, n), sql_between(segs, p + 1, e));
                    if p < e <= segs.len() {
                        collect_from(file, segs, e, next)
                    } else {
                        Some(next)
                    }
                },
            },
            _ => None,
        }
    }
}

proof fn lemma_group_end_bounds(segs: Seq<Segment>, q: int)
    requires
        0 <= q <= segs.len(),
    ensures
        q <= group_end(segs, q) <= segs.len(),
    decreases segs.len() - q,
{
    if q < segs.len() && !(segs[q] is End) {
        lemma_group_end_bounds(segs, q + 1);
    }
}

/// Appends `t` to the entry named `k`, creating it empty if new.
fn add_to_entry(m: &mut Vec<(String, String)>, k: String, t: String)
    requires
        keys_unique(entries_view(old(m)@)),
    ensures
        keys_unique(entries_view(final(m)@)),
        entries_view(final(m)@) == append_entry(entries_view(old(m)@), k@, t@),
{
    let ghost em = entries_view(m@);
    let mut i: usize = 0;
    while i < m.len()
        invariant
            i <= m@.len(),
            em == entries_view(m@),
            em == entries_view(old(m)@),
            keys_unique(em),
            forall|j: int| 0 <= j < i ==> em[j].0 != k@,
        decreases m@.len() - i,
    {
        if m[i].0 == k {
            let mut e = m.remove(i);
            push_text(&mut e.1, t.as_str());
            m.insert(i, e);
            proof {
                assert(em[i as int].0 == k@);
                assert(entries_view(m@) =~= em.update(i as int, (k@, em[i as int].1 + t@)));
                let c = choose|c: int| 0 <= c < em.len() && em[c].0 == k@;
                assert(em[c].0 == em[i as int].0);
                assert(c == i);
                assert(append_entry(em, k@, t@) == em.update(c, (k@, em[c].1 + t@)));
                let nm = entries_view(m@);
                assert forall|a: int, b: int|
                    0 <= a < nm.len() && 0 <= b < nm.len() && nm[a].0 == nm[b].0 implies a == b by {
                    assert(nm[a].0 == em[a].0 && nm[b].0 == em[b].0);
                }
            }
            return;
        }
        i = i + 1;
    }
    m.push((k, t));
    assert(entries_view(m@) =~= em.push((k@, t@)));
    let ghost nm = entries_view(m@);
    assert forall|a: int, b: int|
        0 <= a < nm.len() && 0 <= b < nm.len() && nm[a].0 == nm[b].0 implies a == b by {
        if a < em.len() && b < em.len() {
            assert(nm[a].0 == em[a].0 && nm[b].0 == em[b].0);
        }
    }
}

/// Collects the statement groups of one file into `base`: each group's SQL
/// fragments, concatenated, are appended to the entry named by the group's
/// leading `#name` comment, prefixed with `filename` and `_`. Collection stops
/// at a group without a name, and fails at one that does not lead with a
/// `#` comment.
pub fn lex_2(filename: String, input: VecDeque<Thing>, base: Vec<(String, String)>) -> (r: Result<
    Vec<(String, String)>,
    FormatError,
>)
    requires
        keys_unique(entries_view(base@)),
    ensures
        match collect_from(filename@, segments_view(input@), 0, entries_view(base@)) {
            Some(m) => r matches Ok(v) && entries_view(v@) == m && keys_unique(m),
            None => r is Err,
        },
{
    let ghost segs = segments_view(input@);
    let ghost base0 = entries_view(base@);
    let mut map = base;
    let mut pos: usize = 0;
    while pos < input.len()
        invariant
            segs == segments_view(input@),
            base0 == entries_view(base@),
            pos <= input@.len(),
            keys_unique(entries_view(map@)),
            collect_from(filename@, segs, 0, base0) == collect_from(
                filename@,
                segs,
                pos as int,
                entries_view(map@),
            ),
        decreases input@.len() - pos,
    {
        assert(segs[pos as int] == input@[pos as int]@);
        let text = match &input[pos] {
            Thing::Comment(t) => t,
            _ => {
                assert(!(segs[pos as int] is Comment));
                assert(collect_from(filename@, segs, pos as int, entries_view(map@)) is None);
                return Err(FormatError);
            },
        };
        let cs = chars_of(text.as_str());
        let mut k: usize = 0;
        assert(cs@.skip(0) =~= cs@);
        while k < cs.len() && cs[k] == ' '
            invariant
                k <= cs@.len(),
                skip_spaces(cs@) == skip_spaces(cs@.skip(k as int)),
            decreases cs@.len() - k,
        {
            assert(cs@.skip(k as int).skip(1) =~= cs@.skip(k + 1));
            k = k + 1;
        }
        assert(skip_spaces(cs@.skip(k as int)) == cs@.skip(k as int));
        if k >= cs.len() || cs[k] != '#' {
            return Err(FormatError);
        }
        let mut name = String::new();
        let mut j: usize = k + 1;
        while j < cs.len()
            invariant
                k + 1 <= j <= cs@.len(),
                name@ == cs@.subrange(k + 1, j as int),
            decreases cs@.len() - j,
        {
            push_char(&mut name, cs[j]);
            assert(name@ =~= cs@.subrange(k + 1, j + 1));
            j = j + 1;
        }
        assert(name@ =~= skip_spaces(cs@).skip(1));
        if name.as_str().is_empty() {
            return Ok(map);
        }
        let mut key = filename.clone();
        push_char(&mut key, '_');
        push_text(&mut key, name.as_str());
        let mut body = String::new();
        let mut q: usize = pos + 1;
        let mut done = false;
        proof {
            lemma_group_end_bounds(segs, pos + 1);
        }
        while q < input.len() && !done
            invariant
                segs == segments_view(input@),
                pos + 1 <= q <= input@.len(),
                body@ == sql_between(segs, pos + 1, q as int),
                done ==> q > pos + 1 && segs[q - 1] is End && group_end(segs, pos + 1) == q,
                !done ==> group_end(segs, pos + 1) == group_end(segs, q as int),
            decreases input@.len() - q,
        {
            assert(segs[q as int] == input@[q as int]@);
            match &input[q] {
                Thing::Sql(t) => {
                    push_text(&mut body, t.as_str());
                },
                Thing::EndOfQuery() => {
                    done = true;
                },
                _ => {},
            }
            q = q + 1;
        }
        proof {
            assert(key@ =~= qualified(filename@, name@));
            assert(text@ == cs@);
            assert(declared_name(text@) == Some(name@));
            assert(group_end(segs, pos + 1) == q);
        }
        add_to_entry(&mut map, key, body);
        pos = q;
    }
    Ok(map)
}

/// The text that a token stands for in the query: literal text as it is, a
/// placeholder as its marker, name, `:` and type name.
pub open spec fn token_source(t: Token) -> Seq<char> {
    match t {
        Token::Sql(x) => x,
        Token::Variable(n, ty) => seq!['$'] + n + seq![':'] + ty,
        Token::Return(n, ty) => seq!['@'] + n + seq![':'] + ty,
    }
}

pub open spec fn source_text(toks: Seq<Token>) -> Seq<char>
    decreases toks.len(),
{
    if toks.len() == 0 {
        Seq::empty()
    } else {
        source_text(toks.drop_last()) + token_source(toks.last())
    }
}

/// The text read since the last token was emitted.
pub open spec fn pending_text(st: TokState) -> Seq<char> {
    if st.in_placeholder() {
        seq![if st.in_return { '@' } else { '$' }] + st.cur + if st.past_colon {
            seq![':'] + st.ty_name
        } else {
            Seq::empty()
        }
    } else {
        st.cur
    }
}

proof fn lemma_tok_prefix(s: Seq<char>, n: nat)
    requires
        n <= s.len(),
    ensures
        ({
            let st = tok_prefix(s, n);
            &&& !(st.in_variable && st.in_return)
            &&& st.in_placeholder() && !st.past_colon ==> st.ty_name.len() == 0
            &&& source_text(st.out) + pending_text(st) == s.take(n as int)
        }),
    decreases n,
{
    if n == 0 {
        assert(s.take(0) =~= Seq::<char>::empty());
    } else {
        let m = (n - 1) as nat;
        lemma_tok_prefix(s, m);
        let st = tok_prefix(s, m);
        let nx = tok_prefix(s, n);
        let c = s[m as int];
        assert(s.take(n as int) =~= s.take(m as int).push(c));
        {
            if st.in_placeholder() {
                if !st.past_colon {
                    assert(pending_text(nx) =~= pending_text(st).push(c));
                } else if st.found_char {
                    if is_type_char(c) {
                        assert(pending_text(nx) =~= pending_text(st).push(c));
                    } else {
                        assert(nx.out.drop_last() =~= st.out);
                        assert(token_source(st.placeholder()) =~= pending_text(st));
                        assert(source_text(nx.out) =~= source_text(st.out) + pending_text(st));
                    }
                } else if is_type_char(c) {
                    assert(pending_text(nx) =~= pending_text(st).push(c));
                } else {
                    assert(pending_text(nx) =~= pending_text(st).push(c));
                }
            } else {
                if nx.in_placeholder() {
                    assert(nx.out.drop_last() =~= st.out);
                    assert(source_text(nx.out) =~= source_text(st.out) + st.cur);
                    assert(pending_text(nx) =~= seq![c]);
                } else {
                    assert(pending_text(nx) =~= pending_text(st).push(c));
                }
            }
            assert(source_text(nx.out) + pending_text(nx) =~= s.take(n as int));
        }
    }
}

/// Round trip of the tokenizer: the tokens, each written back as the text it
/// stands for, give the query text again; no character is lost. So the
/// literal tokens, with one marker in place of each placeholder, are the
/// query with each annotation replaced by that marker.
pub proof fn lemma_tokens_round_trip(s: Seq<char>)
    ensures
        source_text(tokens_of(s)) == s,
{
    lemma_tok_prefix(s, s.len());
    let st = tok_prefix(s, s.len());
    assert(s.take(s.len() as int) =~= s);
    if st.in_placeholder() {
        if closes_at_end(st) {
            let o = st.out.push(st.placeholder());
            assert(o.push(Token::Sql(Seq::empty())).drop_last() =~= o);
            assert(o.drop_last() =~= st.out);
            assert(token_source(st.placeholder()) =~= pending_text(st));
            assert(source_text(o) == source_text(st.out) + token_source(st.placeholder()));
            assert(source_text(o.push(Token::Sql(Seq::empty()))) =~= source_text(o));
            assert(tokens_of(s) == o.push(Token::Sql(Seq::empty())));
        } else {
            assert(st.out.push(Token::Sql(pending_text(st))).drop_last() =~= st.out);
        }
    } else {
        assert(st.out.push(Token::Sql(st.cur)).drop_last() =~= st.out);
    }
}

} // verus!
