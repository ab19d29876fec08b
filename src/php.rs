//! The code generator: one method, one result-row class and one deferred
//! transaction class per query.
use vstd::prelude::*;
use crate::php_lib::{
    Class, ClassMember, Function, Param, Visibility, class_text, function_text, members_text,
    params_text, param_text, lines_text, visibility_text, optional_visibility_text,
};
use crate::sqlfile::{SqlToken, Token, entries_view, tokens_view};
use indexmap::IndexMap;
use crate::text::{is_prefix, lowercase_of, push_char, push_text, starts_with_text, to_lower, chars_of};

verus! {

/// The two-character escape of `c` inside a double-quoted string, or `c` itself.
pub open spec fn escape_char(c: char) -> Seq<char> {
    if c == '\n' {
        "\\n"@
    } else if c == '\t' {
        "\\t"@
    } else if c == '\r' {
        "\\r"@
    } else if c == '\x1B' {
        "\\e"@
    } else if c == '\x0B' {
        "\\v"@
    } else if c == '\x0C' {
        "\\f"@
    } else if c == '\\' {
        "\\\\"@
    } else if c == '$' {
        "\\$"@
    } else if c == '"' {
        "\\\""@
    } else {
        seq![c]
    }
}

pub open spec fn escaped(s: Seq<char>) -> Seq<char>
    decreases s.len(),
{
    if s.len() == 0 {
        Seq::empty()
    } else {
        escaped(s.drop_last()) + escape_char(s.last())
    }
}

/// Escapes `string` for a double-quoted string literal of the generated code.
pub fn escape(string: String) -> (r: String)
    ensures
        r@ == escaped(string@),
{
    let s = chars_of(string.as_str());
    let mut out = String::new();
    let mut i: usize = 0;
    while i < s.len()
        invariant
            s@ == string@,
            i <= s@.len(),
            out@ == escaped(s@.take(i as int)),
        decreases s@.len() - i,
    {
        let c = s[i];
        if c == '\n' {
            push_text(&mut out, "\\n");
        } else if c == '\t' {
            push_text(&mut out, "\\t");
        } else if c == '\r' {
            push_text(&mut out, "\\r");
        } else if c == '\x1B' {
            push_text(&mut out, "\\e");
        } else if c == '\x0B' {
            push_text(&mut out, "\\v");
        } else if c == '\x0C' {
            push_text(&mut out, "\\f");
        } else if c == '\\' {
            push_text(&mut out, "\\\\");
        } else if c == '$' {
            push_text(&mut out, "\\$");
        } else if c == '"' {
            push_text(&mut out, "\\\"");
        } else {
            push_char(&mut out, c);
        }
        assert(s@.take(i + 1).drop_last() =~= s@.take(i as int));
        i = i + 1;
    }
    assert(s@.take(i as int) =~= s@);
    out
}

/// The query declares at least one result column.
pub open spec fn has_return(toks: Seq<Token>) -> bool {
    exists|i: int| 0 <= i < toks.len() && toks[i] is Return
}

fn any_return(query: &Vec<SqlToken>) -> (r: bool)
    ensures
        r == has_return(tokens_view(query@)),
{
    let ghost t = tokens_view(query@);
    let mut i: usize = 0;
    while i < query.len()
        invariant
            t == tokens_view(query@),
            i <= query@.len(),
            forall|j: int| 0 <= j < i ==> !(t[j] is Return),
        decreases query@.len() - i,
    {
        if let SqlToken::Return(_, _) = &query[i] {
            assert(t[i as int] is Return);
            return true;
        }
        i = i + 1;
    }
    false
}

/// The statement text: literals as they are, each result column as its
/// name, each bound parameter as `?`.
pub open spec fn marked_query(toks: Seq<Token>) -> Seq<char>
    decreases toks.len(),
{
    if toks.len() == 0 {
        Seq::empty()
    } else {
        marked_query(toks.drop_last()) + match toks.last() {
            Token::Sql(t) => t,
            Token::Return(n, _) => n,
            Token::Variable(_, _) => seq!['?'],
        }
    }
}

/// `$name,` for each bound parameter, in order, repeats included.
pub open spec fn bindings_text(toks: Seq<Token>) -> Seq<char>
    decreases toks.len(),
{
    if toks.len() == 0 {
        Seq::empty()
    } else {
        bindings_text(toks.drop_last()) + match toks.last() {
            Token::Variable(n, _) => seq!['$'] + n + seq![','],
            _ => Seq::empty(),
        }
    }
}

/// A name is among the first components of `m`.
pub open spec fn has_key(m: Seq<(Seq<char>, Seq<char>)>, k: Seq<char>) -> bool {
    exists|i: int| 0 <= i < m.len() && m[i].0 == k
}

/// The method's parameters: each bound parameter's name and type, at its
/// first occurrence.
pub open spec fn method_params(toks: Seq<Token>) -> Seq<(Seq<char>, Seq<char>)>
    decreases toks.len(),
{
    if toks.len() == 0 {
        Seq::empty()
    } else {
        let m = method_params(toks.drop_last());
        match toks.last() {
            Token::Variable(n, t) => if has_key(m, n) {
                m
            } else {
                m.push((n, t))
            },
            _ => m,
        }
    }
}

pub open spec fn param_entries(ps: Seq<Param>) -> Seq<(Seq<char>, Seq<char>)> {
    ps.map_values(|p: Param| (p.name@, p.param_type@))
}

/// The query is an insert: its first token is literal text that begins with
/// `insert` once lower-cased.
pub open spec fn is_insert(toks: Seq<Token>) -> bool {
    toks.len() > 0 && match toks[0] {
        Token::Sql(t) => is_prefix("insert"@, lowercase_of(t)),
        _ => false,
    }
}

/// Whether lower-cased text begins an insert statement.
pub fn is_insert_text(lowered: &str) -> (r: bool)
    ensures
        r == is_prefix("insert"@, lowered@),
{
    starts_with_text(lowered, "insert")
}

/// The doc comment of a query's method.
pub open spec fn method_comment(name: Seq<char>, toks: Seq<Token>) -> Seq<char> {
    if has_return(toks) {
        "/** @return "@ + name + "[]|\\Generator */"@
    } else {
        "/** @return int */"@
    }
}

/// The body of a row-producing method: prepare and execute the statement,
/// then yield one `name` object per row.
pub open spec fn row_method_body(name: Seq<char>, toks: Seq<Token>) -> Seq<char> {
    "$statement = $this->db->prepare(\""@ + escaped(marked_query(toks))
        + "\"); $statement->execute(["@ + bindings_text(toks)
        + "]); while ($res = $statement->fetch(\\PDO::FETCH_NUM)) { yield new "@ + name
        + "(...$res);}"@
}

/// The body of a mutation method: prepare and execute the statement, then
/// return the new row's identifier (insert) or the count of affected rows.
pub open spec fn mutation_method_body(toks: Seq<Token>) -> Seq<char> {
    "$statement = $this->db->prepare(\""@ + escaped(marked_query(toks))
        + "\");$statement->execute(["@ + bindings_text(toks) + "]);"@ + if is_insert(toks) {
        "return $this->db->lastInsertId();"@
    } else {
        "return $statement->rowCount();"@
    }
}

/// The body of a query's method.
pub open spec fn method_body(name: Seq<char>, toks: Seq<Token>) -> Seq<char> {
    if has_return(toks) {
        row_method_body(name, toks)
    } else {
        mutation_method_body(toks)
    }
}

fn has_param(params: &Vec<Param>, n: &String) -> (r: bool)
    ensures
        r == has_key(param_entries(params@), n@),
{
    let ghost m = param_entries(params@);
    let mut j: usize = 0;
    while j < params.len()
        invariant
            m == param_entries(params@),
            j <= params@.len(),
            forall|k: int| 0 <= k < j ==> m[k].0 != n@,
        decreases params@.len() - j,
    {
        if params[j].name == *n {
            assert(m[j as int].0 == n@);
            return true;
        }
        j = j + 1;
    }
    false
}

/// The data-access method of the query `name`: a generator of row objects
/// when the query declares result columns, else a method that returns the new
/// row's identifier (insert) or the count of affected rows. A parameter used
/// more than once is declared once and bound at each use.
pub fn generate_method(name: &String, query: &Vec<SqlToken>) -> (r: Function)
    ensures
        r.name@ == name@,
        r.visibility == Some(Visibility::Public()),
        r.comment@ == method_comment(name@, tokens_view(query@)),
        param_entries(r.params@) == method_params(tokens_view(query@)),
        forall|i: int| 0 <= i < r.params@.len() ==> r.params@[i].visibility is None,
        r.body@.len() == 1,
        r.body@[0]@ == method_body(name@, tokens_view(query@)),
{
    let ghost t = tokens_view(query@);
    let has_returns = any_return(query);
    let comment = if has_returns {
        let mut c = "/** @return ".to_owned();
        push_text(&mut c, name.as_str());
        push_text(&mut c, "[]|\\Generator */");
        c
    } else {
        "/** @return int */".to_owned()
    };
    let mut params: Vec<Param> = Vec::new();
    let mut bindings = String::new();
    let mut q_marked = String::new();
    let mut i: usize = 0;
    assert(t.take(0) =~= Seq::<Token>::empty());
    assert(param_entries(params@) =~= Seq::<(Seq<char>, Seq<char>)>::empty());
    while i < query.len()
        invariant
            t == tokens_view(query@),
            i <= query@.len(),
            param_entries(params@) == method_params(t.take(i as int)),
            forall|k: int| 0 <= k < params@.len() ==> params@[k].visibility is None,
            bindings@ == bindings_text(t.take(i as int)),
            q_marked@ == marked_query(t.take(i as int)),
        decreases query@.len() - i,
    {
        assert(t.take(i + 1).drop_last() =~= t.take(i as int));
        assert(t.take(i + 1).last() == query@[i as int]@);
        match &query[i] {
            SqlToken::Variable(n, ty) => {
                if !has_param(&params, n) {
                    let p = Param { name: n.clone(), param_type: ty.clone(), visibility: None };
                    params.push(p);
                    assert(param_entries(params@) =~= method_params(t.take(i as int)).push(
                        (n@, ty@),
                    ));
                }
                push_char(&mut bindings, '$');
                push_text(&mut bindings, n.as_str());
                push_char(&mut bindings, ',');
                assert(bindings@ =~= bindings_text(t.take(i as int)) + (seq!['$'] + n@ + seq![',']));
                push_char(&mut q_marked, '?');
                assert(q_marked@ =~= marked_query(t.take(i as int)) + seq!['?']);
            },
            SqlToken::Return(n, _) => {
                push_text(&mut q_marked, n.as_str());
                assert(bindings@ =~= bindings_text(t.take(i as int)) + Seq::empty());
            },
            SqlToken::Sql(a) => {
                push_text(&mut q_marked, a.as_str());
                assert(bindings@ =~= bindings_text(t.take(i as int)) + Seq::empty());
            },
        }
        i = i + 1;
    }
    assert(t.take(i as int) =~= t);
    let insert = if query.len() > 0 {
        match &query[0] {
            SqlToken::Sql(a) => {
                let lowered = to_lower(a.as_str());
                is_insert_text(lowered.as_str())
            },
            _ => false,
        }
    } else {
        false
    };
    let mut body = "$statement = $this->db->prepare(\"".to_owned();
    let escaped_query = escape(q_marked);
    push_text(&mut body, escaped_query.as_str());
    if has_returns {
        push_text(&mut body, "\"); $statement->execute([");
        push_text(&mut body, bindings.as_str());
        push_text(&mut body, "]); while ($res = $statement->fetch(\\PDO::FETCH_NUM)) { yield new ");
        push_text(&mut body, name.as_str());
        push_text(&mut body, "(...$res);}");
    } else {
        push_text(&mut body, "\");$statement->execute([");
        push_text(&mut body, bindings.as_str());
        push_text(&mut body, "]);");
        if insert {
            push_text(&mut body, "return $this->db->lastInsertId();");
        } else {
            push_text(&mut body, "return $statement->rowCount();");
        }
    }
    let mut lines: Vec<String> = Vec::new();
    lines.push(body);
    Function {
        body: lines,
        name: name.clone(),
        params,
        comment,
        visibility: Some(Visibility::Public()),
    }
}

/// Parameters as text, joined by commas: each entry's type and `$name`, with
/// the keyword of `vis` before it.
pub open spec fn entries_params_text(m: Seq<(Seq<char>, Seq<char>)>, vis: Option<Visibility>) -> Seq<char>
    decreases m.len(),
{
    if m.len() == 0 {
        Seq::empty()
    } else if m.len() == 1 {
        optional_visibility_text(vis) + m[0].1 + " $"@ + m[0].0
    } else {
        entries_params_text(m.drop_last(), vis) + ","@ + (optional_visibility_text(vis) + m.last().1
            + " $"@ + m.last().0)
    }
}

pub proof fn lemma_params_text(ps: Seq<Param>, vis: Option<Visibility>)
    requires
        forall|i: int| 0 <= i < ps.len() ==> ps[i].visibility == vis,
    ensures
        params_text(ps) == entries_params_text(param_entries(ps), vis),
    decreases ps.len(),
{
    if ps.len() > 1 {
        lemma_params_text(ps.drop_last(), vis);
        assert(param_entries(ps.drop_last()) =~= param_entries(ps).drop_last());
    }
}

/// The result columns of a query: name and type, in order.
pub open spec fn return_entries(toks: Seq<Token>) -> Seq<(Seq<char>, Seq<char>)>
    decreases toks.len(),
{
    if toks.len() == 0 {
        Seq::empty()
    } else {
        let m = return_entries(toks.drop_last());
        match toks.last() {
            Token::Return(n, t) => m.push((n, t)),
            _ => m,
        }
    }
}

/// The result-row class of the query: empty when it declares no result
/// column, else a class named `class` whose constructor promotes each column.
pub open spec fn return_type_text(class: Seq<char>, toks: Seq<Token>) -> Seq<char> {
    if has_return(toks) {
        "class "@ + class + " "@ + "{"@ + (visibility_text(Visibility::Public()) + "function "@
            + "__construct"@ + "("@ + entries_params_text(return_entries(toks), Some(Visibility::Public())) + ") {"@
            + "}"@) + "}"@
    } else {
        Seq::empty()
    }
}

/// The result-row class of a query, as text; empty when the query declares no
/// result column.
pub fn generate_return_type(class: &String, query: &Vec<SqlToken>) -> (r: String)
    ensures
        r@ == return_type_text(class@, tokens_view(query@)),
{
    let ghost t = tokens_view(query@);
    if !any_return(query) {
        return String::new();
    }
    let mut params: Vec<Param> = Vec::new();
    let mut i: usize = 0;
    assert(t.take(0) =~= Seq::<Token>::empty());
    assert(param_entries(params@) =~= Seq::<(Seq<char>, Seq<char>)>::empty());
    while i < query.len()
        invariant
            t == tokens_view(query@),
            i <= query@.len(),
            param_entries(params@) == return_entries(t.take(i as int)),
            forall|k: int| 0 <= k < params@.len() ==> params@[k].visibility == Some(Visibility::Public()),
        decreases query@.len() - i,
    {
        assert(t.take(i + 1).drop_last() =~= t.take(i as int));
        assert(t.take(i + 1).last() == query@[i as int]@);
        if let SqlToken::Return(n, ty) = &query[i] {
            let p = Param {
                name: n.clone(),
                param_type: ty.clone(),
                visibility: Some(Visibility::Public()),
            };
            let ghost before = params@;
            params.push(p);
            assert(param_entries(params@) =~= param_entries(before).push((n@, ty@)));
        }
        i = i + 1;
    }
    assert(t.take(i as int) =~= t);
    let constructor = Function {
        body: Vec::new(),
        name: "__construct".to_owned(),
        params,
        comment: String::new(),
        visibility: Some(Visibility::Public()),
    };
    proof {
        lemma_params_text(constructor.params@, Some(Visibility::Public()));
        assert(lines_text(constructor.body@) == Seq::<char>::empty());
        assert(function_text(constructor) =~= visibility_text(Visibility::Public())
            + "function "@ + "__construct"@ + "("@ + entries_params_text(
            return_entries(t),
            Some(Visibility::Public()),
        ) + ") {"@ + "}"@);
    }
    let mut members: Vec<ClassMember> = Vec::new();
    members.push(ClassMember::Function(constructor));
    let c = Class {
        name: class.clone(),
        extends: None,
        implements: Vec::new(),
        is_abstract: false,
        members,
        comment: String::new(),
    };
    proof {
        assert(c.members@.drop_last() =~= Seq::<ClassMember>::empty());
        assert(members_text(c.members@.drop_last()) == Seq::<char>::empty());
        assert(c.members@.last() == ClassMember::Function(constructor));
        assert(members_text(c.members@) =~= function_text(constructor));
        assert(class_text(c) =~= return_type_text(class@, t));
    }
    c.to_string()
}

#[verifier::external_type_specification]
#[verifier::external_body]
#[verifier::reject_recursive_types(K)]
#[verifier::reject_recursive_types(V)]
#[verifier::reject_recursive_types(S)]
pub struct ExIndexMap<K, V, S>(IndexMap<K, V, S>);

/// The entries of an index map, in its order.
pub uninterp spec fn index_entries(m: IndexMap<String, String>) -> Seq<(Seq<char>, Seq<char>)>;

/// `m` with the value under `k` replaced in place, or `(k, v)` added last.
pub open spec fn put_entry(m: Seq<(Seq<char>, Seq<char>)>, k: Seq<char>, v: Seq<char>) -> Seq<
    (Seq<char>, Seq<char>),
> {
    if has_key(m, k) {
        let i = choose|i: int| 0 <= i < m.len() && m[i].0 == k;
        m.update(i, (k, v))
    } else {
        m.push((k, v))
    }
}

/// Relies on `IndexMap::new`: an empty map.
#[verifier::external_body]
fn new_index_map() -> (r: IndexMap<String, String>)
    ensures
        index_entries(r) == Seq::<(Seq<char>, Seq<char>)>::empty(),
{
    IndexMap::new()
}

/// Relies on `IndexMap::insert`: an existing key keeps its place and takes the
/// new value; a new key goes last.
#[verifier::external_body]
fn index_insert(m: &mut IndexMap<String, String>, k: String, v: String)
    ensures
        index_entries(*final(m)) == put_entry(index_entries(*old(m)), k@, v@),
{
    m.insert(k, v);
}

/// Relies on `IndexMap::iter`: the entries in the map's order.
#[verifier::external_body]
fn index_pairs(m: &IndexMap<String, String>) -> (r: Vec<(String, String)>)
    ensures
        entries_view(r@) == index_entries(*m),
{
    m.iter().map(|(k, v)| (k.clone(), v.clone())).collect()
}

/// The captured parameters of a query's transaction class: each bound
/// parameter's name at its first occurrence, with the type of its last.
pub open spec fn transaction_params(toks: Seq<Token>) -> Seq<(Seq<char>, Seq<char>)>
    decreases toks.len(),
{
    if toks.len() == 0 {
        Seq::empty()
    } else {
        let m = transaction_params(toks.drop_last());
        match toks.last() {
            Token::Variable(n, t) => put_entry(m, n, t),
            _ => m,
        }
    }
}

/// `$this->name,` for each of the first `n` entries.
pub open spec fn captured_args(m: Seq<(Seq<char>, Seq<char>)>, n: int) -> Seq<char>
    decreases n,
{
    if n <= 0 {
        Seq::empty()
    } else {
        captured_args(m, n - 1) + "$this->"@ + m[n - 1].0 + ","@
    }
}

/// The body of the transaction's `run`: call the query's method on the
/// transaction with the captured values, then collect the rows into an array
/// or return the result as it is.
pub open spec fn transaction_body(name: Seq<char>, toks: Seq<Token>) -> Seq<char> {
    let m = transaction_params(toks);
    "$out = $t->"@ + name + "("@ + captured_args(m, m.len() as int) + if has_return(toks) {
        ");
            $rv = [];
            foreach ($out as $out) {
                $rv[]=$out;
            }
            return $rv;"@
    } else {
        ");return $out;"@
    }
}

/// `c` is the transaction class of the query `name`: `AT_name`, extending
/// `AsyncTransaction`, with a constructor that captures the parameters as
/// private properties and a `run(Transaction $t)` method.
pub open spec fn is_transaction_class(c: Class, name: Seq<char>, toks: Seq<Token>) -> bool {
    &&& c.name@ == "AT_"@ + name
    &&& c.extends is Some && c.extends->Some_0@ == "AsyncTransaction"@
    &&& c.implements@.len() == 0
    &&& !c.is_abstract
    &&& c.comment@.len() == 0
    &&& c.members@.len() == 2
    &&& match c.members@[0] {
        ClassMember::Function(f) => {
            &&& f.name@ == "__construct"@
            &&& f.visibility == Some(Visibility::Public())
            &&& f.comment@.len() == 0
            &&& f.body@.len() == 0
            &&& param_entries(f.params@) == transaction_params(toks)
            &&& forall|i: int|
                0 <= i < f.params@.len() ==> f.params@[i].visibility == Some(Visibility::Private())
        },
    }
    &&& match c.members@[1] {
        ClassMember::Function(g) => {
            &&& g.name@ == "run"@
            &&& g.visibility == Some(Visibility::Public())
            &&& g.comment@.len() == 0
            &&& g.params@.len() == 1
            &&& g.params@[0].name@ == "t"@
            &&& g.params@[0].param_type@ == "Transaction"@
            &&& g.params@[0].visibility is None
            &&& g.body@.len() == 1
            &&& g.body@[0]@ == transaction_body(name, toks)
        },
    }
}

/// The deferred transaction class of the query `name`.
pub fn generate_async_transaction(name: &String, query: &Vec<SqlToken>) -> (r: Class)
    ensures
        is_transaction_class(r, name@, tokens_view(query@)),
{
    let ghost t = tokens_view(query@);
    let mut body = "$out = $t->".to_owned();
    let mut map = new_index_map();
    let mut i: usize = 0;
    assert(t.take(0) =~= Seq::<Token>::empty());
    while i < query.len()
        invariant
            t == tokens_view(query@),
            i <= query@.len(),
            index_entries(map) == transaction_params(t.take(i as int)),
        decreases query@.len() - i,
    {
        assert(t.take(i + 1).drop_last() =~= t.take(i as int));
        assert(t.take(i + 1).last() == query@[i as int]@);
        if let SqlToken::Variable(n, ty) = &query[i] {
            index_insert(&mut map, n.clone(), ty.clone());
        }
        i = i + 1;
    }
    assert(t.take(i as int) =~= t);
    let entries = index_pairs(&map);
    let ghost m = entries_view(entries@);
    push_text(&mut body, name.as_str());
    push_text(&mut body, "(");
    let ghost head = body@;
    let mut params: Vec<Param> = Vec::new();
    let mut j: usize = 0;
    assert(param_entries(params@) =~= m.take(0));
    while j < entries.len()
        invariant
            m == entries_view(entries@),
            j <= entries@.len(),
            body@ == head + captured_args(m, j as int),
            param_entries(params@) == m.take(j as int),
            forall|k: int| 0 <= k < params@.len() ==> params@[k].visibility == Some(Visibility::Private()),
        decreases entries@.len() - j,
    {
        let e = &entries[j];
        let k = &e.0;
        let v = &e.1;
        assert(m[j as int] == (k@, v@));
        push_text(&mut body, "$this->");
        push_text(&mut body, k.as_str());
        push_text(&mut body, ",");
        let p = Param { name: k.clone(), param_type: v.clone(), visibility: Some(Visibility::Private()) };
        let ghost before = params@;
        params.push(p);
        assert(param_entries(params@) =~= param_entries(before).push((k@, v@)));
        assert(m.take(j + 1) =~= m.take(j as int).push(m[j as int]));
        j = j + 1;
    }
    assert(m.take(j as int) =~= m);
    if any_return(query) {
        push_text(&mut body, ");
            $rv = [];
            foreach ($out as $out) {
                $rv[]=$out;
            }
            return $rv;");
    } else {
        push_text(&mut body, ");return $out;");
    }
    let mut class_name = "AT_".to_owned();
    push_text(&mut class_name, name.as_str());
    let constructor = Function {
        comment: String::new(),
        params,
        name: "__construct".to_owned(),
        body: Vec::new(),
        visibility: Some(Visibility::Public()),
    };
    let mut run_params: Vec<Param> = Vec::new();
    run_params.push(Param { name: "t".to_owned(), param_type: "Transaction".to_owned(), visibility: None });
    let mut run_body: Vec<String> = Vec::new();
    run_body.push(body);
    let run = Function {
        comment: String::new(),
        name: "run".to_owned(),
        params: run_params,
        body: run_body,
        visibility: Some(Visibility::Public()),
    };
    let mut members: Vec<ClassMember> = Vec::new();
    members.push(ClassMember::Function(constructor));
    members.push(ClassMember::Function(run));
    Class {
        comment: String::new(),
        name: class_name,
        extends: Some("AsyncTransaction".to_owned()),
        implements: Vec::new(),
        is_abstract: false,
        members,
    }
}

/// A parameter used several times is declared once: the method's parameter
/// names are distinct, and each bound parameter of the query is among them.
/// Its binding list has one entry per use.
pub proof fn lemma_parameters_declared_once(toks: Seq<Token>)
    ensures
        crate::sqlfile::keys_unique(method_params(toks)),
        forall|i: int|
            0 <= i < toks.len() && #[trigger] toks[i] is Variable ==> has_key(
                method_params(toks),
                toks[i]->Variable_0,
            ),
    decreases toks.len(),
{
    if toks.len() > 0 {
        let d = toks.drop_last();
        lemma_parameters_declared_once(d);
        let m = method_params(d);
        let r = method_params(toks);
        assert forall|i: int|
            0 <= i < toks.len() && #[trigger] toks[i] is Variable implies has_key(
                r,
                toks[i]->Variable_0,
            ) by {
            if i < d.len() {
                assert(d[i] == toks[i]);
                let w = choose|w: int| 0 <= w < m.len() && m[w].0 == toks[i]->Variable_0;
                assert(r[w] == m[w]);
            } else if !has_key(m, toks[i]->Variable_0) {
                assert(r[m.len() as int].0 == toks[i]->Variable_0);
            }
        }
        assert forall|a: int, b: int|
            0 <= a < r.len() && 0 <= b < r.len() && r[a].0 == r[b].0 implies a == b by {
            if a < m.len() && b < m.len() {
                assert(r[a] == m[a] && r[b] == m[b]);
            } else if a < m.len() {
                assert(r[a] == m[a]);
            } else if b < m.len() {
                assert(r[b] == m[b]);
            }
        }
    }
}

/// Shape inference: a query without result columns gets no result-row class
/// and a method that returns a count or an identifier; a query with one gets
/// a result-row class and a method that yields rows.
pub proof fn lemma_shape_inference(name: Seq<char>, toks: Seq<Token>)
    ensures
        !has_return(toks) ==> return_type_text(name, toks) == Seq::<char>::empty()
            && method_body(name, toks) == mutation_method_body(toks),
        has_return(toks) ==> return_type_text(name, toks).len() > 0 && method_body(name, toks)
            == row_method_body(name, toks),
{
    reveal_strlit("class ");
}

/// `t` is a suffix of `s`.
pub open spec fn ends_with(s: Seq<char>, t: Seq<char>) -> bool {
    t.len() <= s.len() && s.subrange(s.len() - t.len(), s.len() as int) == t
}

/// The method of a query with result columns ends by yielding one `name`
/// object per row and is documented as a generator; the method of any other
/// query ends with a single return statement and is documented as returning
/// an integer.
pub proof fn lemma_method_shape(name: Seq<char>, toks: Seq<Token>)
    ensures
        has_return(toks) ==> ends_with(method_body(name, toks), "yield new "@ + name + "(...$res);}"@)
            && method_comment(name, toks) == "/** @return "@ + name + "[]|\\Generator */"@,
        !has_return(toks) ==> (ends_with(method_body(name, toks), "return $this->db->lastInsertId();"@)
            || ends_with(method_body(name, toks), "return $statement->rowCount();"@))
            && method_comment(name, toks) == "/** @return int */"@,
{
    if has_return(toks) {
        let l = "]); while ($res = $statement->fetch(\\PDO::FETCH_NUM)) { yield new "@;
        let y = "yield new "@;
        reveal_strlit("]); while ($res = $statement->fetch(\\PDO::FETCH_NUM)) { yield new ");
        reveal_strlit("yield new ");
        assert(l.subrange(l.len() - y.len(), l.len() as int) =~= y);
        let p = "$statement = $this->db->prepare(\""@ + escaped(marked_query(toks))
            + "\"); $statement->execute(["@ + bindings_text(toks);
        let b = method_body(name, toks);
        let t = y + name + "(...$res);}"@;
        assert(b == p + l + name + "(...$res);}"@);
        assert(b =~= (p + l.subrange(0, l.len() - y.len())) + t);
        assert(b.subrange(b.len() - t.len(), b.len() as int) =~= t);
    } else {
        let b = method_body(name, toks);
        let e = if is_insert(toks) {
            "return $this->db->lastInsertId();"@
        } else {
            "return $statement->rowCount();"@
        };
        let p = "$statement = $this->db->prepare(\""@ + escaped(marked_query(toks))
            + "\");$statement->execute(["@ + bindings_text(toks) + "]);"@;
        assert(b == p + e);
        assert(b.subrange(b.len() - e.len(), b.len() as int) =~= e);
    }
}

} // verus!
