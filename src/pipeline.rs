//! The whole run on a set of query files: collect the named queries, then
//! generate the methods, result-row classes and transaction classes.
use vstd::prelude::*;
use crate::php::{
    entries_params_text, generate_async_transaction, generate_method, generate_return_type,
    has_return, lemma_params_text,
    is_transaction_class, method_body, method_comment, method_params, param_entries,
    return_type_text, transaction_body, transaction_params,
};
use crate::php_lib::{
    Param, Visibility, class_text, function_text, lines_text, members_text,
    optional_visibility_text, params_text, visibility_text,
};
use crate::sqlfile::{
    Token, collect_from, entries_view, is_terminated, keys_unique, lex, lex_2, lex_sql,
    split_segments, tokens_of, tokens_view,
};
use crate::text::push_text;

verus! {

/// Why a run fails.
#[derive(Debug)]
pub enum GenerateError {
    /// The file does not end in a completed statement.
    Syntax { file: String },
    /// A statement group of the file does not lead with a `#name` comment.
    Format { file: String },
    /// The named query has no text.
    EmptyQuery { name: String },
}

/// The outcome of collecting files: the named queries, or the index of the
/// file that failed and how.
pub enum Collected {
    Queries(Seq<(Seq<char>, Seq<char>)>),
    Syntax(int),
    Format(int),
}

/// Collecting the first `n` files, each a stem and a text, in order.
pub open spec fn collect_files_upto(fs: Seq<(Seq<char>, Seq<char>)>, n: int) -> Collected
    decreases n,
{
    if n <= 0 {
        Collected::Queries(Seq::empty())
    } else {
        match collect_files_upto(fs, n - 1) {
            Collected::Queries(m) => {
                let segs = split_segments(fs[n - 1].1);
                if !is_terminated(segs) {
                    Collected::Syntax(n - 1)
                } else {
                    match collect_from(fs[n - 1].0, segs, 0, m) {
                        Some(m2) => Collected::Queries(m2),
                        None => Collected::Format(n - 1),
                    }
                }
            },
            other => other,
        }
    }
}

proof fn lemma_failure_stays(fs: Seq<(Seq<char>, Seq<char>)>, i: int, n: int)
    requires
        0 <= i < n,
        !(collect_files_upto(fs, i + 1) is Queries),
    ensures
        collect_files_upto(fs, n) == collect_files_upto(fs, i + 1),
    decreases n - i,
{
    if n > i + 1 {
        lemma_failure_stays(fs, i, n - 1);
    }
}

/// Collects the named queries of `files` (stem and text), in order.
pub fn collect_files(files: &Vec<(String, String)>) -> (r: Result<Vec<(String, String)>, GenerateError>)
    ensures
        match collect_files_upto(entries_view(files@), files@.len() as int) {
            Collected::Queries(m) => r is Ok && entries_view(r->Ok_0@) == m && keys_unique(m),
            Collected::Syntax(i) => r matches Err(GenerateError::Syntax { file }) && file@ == files@[i].0@,
            Collected::Format(i) => r matches Err(GenerateError::Format { file }) && file@ == files@[i].0@,
        },
{
    let ghost fs = entries_view(files@);
    let mut map: Vec<(String, String)> = Vec::new();
    let mut i: usize = 0;
    assert(entries_view(map@) =~= Seq::<(Seq<char>, Seq<char>)>::empty());
    while i < files.len()
        invariant
            fs == entries_view(files@),
            i <= files@.len(),
            keys_unique(entries_view(map@)),
            collect_files_upto(fs, i as int) == Collected::Queries(entries_view(map@)),
        decreases files@.len() - i,
    {
        let stem = &files[i].0;
        let text = &files[i].1;
        assert(fs[i as int] == (stem@, text@));
        let segs = match lex(text.clone()) {
            Ok(v) => v,
            Err(_) => {
                proof {
                    lemma_failure_stays(fs, i as int, files@.len() as int);
                }
                return Err(GenerateError::Syntax { file: stem.clone() });
            },
        };
        map = match lex_2(stem.clone(), segs, map) {
            Ok(m) => m,
            Err(_) => {
                proof {
                    lemma_failure_stays(fs, i as int, files@.len() as int);
                }
                return Err(GenerateError::Format { file: stem.clone() });
            },
        };
        i = i + 1;
    }
    Ok(map)
}

/// The method of a query, as text.
pub open spec fn method_text(name: Seq<char>, toks: Seq<Token>) -> Seq<char> {
    method_comment(name, toks) + visibility_text(Visibility::Public()) + "function "@ + name + "("@
        + entries_params_text(method_params(toks), None) + ") {"@ + method_body(name, toks) + "}"@
}

/// The transaction class of a query, as text.
pub open spec fn transaction_text(name: Seq<char>, toks: Seq<Token>) -> Seq<char> {
    "class "@ + ("AT_"@ + name) + " "@ + ("extends "@ + "AsyncTransaction"@ + " "@) + "{"@ + (
    visibility_text(Visibility::Public()) + "function "@ + "__construct"@ + "("@
        + entries_params_text(transaction_params(toks), Some(Visibility::Private())) + ") {"@
        + "}"@ + (visibility_text(Visibility::Public()) + "function "@ + "run"@ + "("@ + (
    optional_visibility_text(None) + "Transaction"@ + " $"@ + "t"@) + ") {"@ + transaction_body(name, toks)
        + "}"@)) + "}"@
}

/// The methods, result-row classes and transaction classes of the first `n`
/// queries, each part in query order.
pub open spec fn methods_upto(qs: Seq<(Seq<char>, Seq<char>)>, n: int) -> Seq<char>
    decreases n,
{
    if n <= 0 {
        Seq::empty()
    } else {
        methods_upto(qs, n - 1) + method_text(qs[n - 1].0, tokens_of(qs[n - 1].1))
    }
}

pub open spec fn return_types_upto(qs: Seq<(Seq<char>, Seq<char>)>, n: int) -> Seq<char>
    decreases n,
{
    if n <= 0 {
        Seq::empty()
    } else {
        return_types_upto(qs, n - 1) + return_type_text(qs[n - 1].0, tokens_of(qs[n - 1].1))
    }
}

pub open spec fn transactions_upto(qs: Seq<(Seq<char>, Seq<char>)>, n: int) -> Seq<char>
    decreases n,
{
    if n <= 0 {
        Seq::empty()
    } else {
        transactions_upto(qs, n - 1) + transaction_text(qs[n - 1].0, tokens_of(qs[n - 1].1))
    }
}

/// The generated code of the named queries `qs`: the methods, the `}` that
/// closes their class, the result-row classes, then the transaction classes.
pub open spec fn code_text(qs: Seq<(Seq<char>, Seq<char>)>) -> Seq<char> {
    let n = qs.len() as int;
    methods_upto(qs, n) + "}"@ + return_types_upto(qs, n) + transactions_upto(qs, n)
}

pub open spec fn has_empty_query(qs: Seq<(Seq<char>, Seq<char>)>) -> bool {
    exists|i: int| 0 <= i < qs.len() && qs[i].1.len() == 0
}

/// Generates the code of the named queries (name and raw text), in order.
/// A query with no text fails the run.
pub fn generate_code(queries: &Vec<(String, String)>) -> (r: Result<String, GenerateError>)
    ensures
        r is Ok <==> !has_empty_query(entries_view(queries@)),
        r is Ok ==> r->Ok_0@ == code_text(entries_view(queries@)),
        r is Err ==> (r matches Err(GenerateError::EmptyQuery { name }) && exists|i: int|
            0 <= i < queries@.len() && queries@[i].0@ == name@ && queries@[i].1@.len() == 0),
{
    let ghost qs = entries_view(queries@);
    let mut i: usize = 0;
    while i < queries.len()
        invariant
            qs == entries_view(queries@),
            i <= queries@.len(),
            forall|j: int| 0 <= j < i ==> qs[j].1.len() != 0,
        decreases queries@.len() - i,
    {
        if queries[i].1.as_str().is_empty() {
            assert(qs[i as int].1.len() == 0);
            return Err(GenerateError::EmptyQuery { name: queries[i].0.clone() });
        }
        i = i + 1;
    }
    let mut methods = String::new();
    let mut row_classes = String::new();
    let mut transactions = String::new();
    let mut k: usize = 0;
    while k < queries.len()
        invariant
            qs == entries_view(queries@),
            k <= queries@.len(),
            methods@ == methods_upto(qs, k as int),
            row_classes@ == return_types_upto(qs, k as int),
            transactions@ == transactions_upto(qs, k as int),
        decreases queries@.len() - k,
    {
        let name = &queries[k].0;
        let toks = lex_sql(queries[k].1.clone());
        let ghost t = tokens_view(toks@);
        assert(qs[k as int] == (name@, queries@[k as int].1@));
        let f = generate_method(name, &toks);
        let ft = f.to_string();
        proof {
            lemma_params_text(f.params@, None);
            assert(lines_text(f.body@.drop_last()) == Seq::<char>::empty());
            assert(f.body@.drop_last() =~= Seq::<String>::empty());
            assert(function_text(f) =~= method_text(name@, t));
        }
        push_text(&mut methods, ft.as_str());
        let rt = generate_return_type(name, &toks);
        push_text(&mut row_classes, rt.as_str());
        let c = generate_async_transaction(name, &toks);
        proof {
            let ctor = c.members@[0]->Function_0;
            let run = c.members@[1]->Function_0;
            lemma_params_text(ctor.params@, Some(Visibility::Private()));
            assert(lines_text(ctor.body@) == Seq::<char>::empty());
            assert(run.body@.drop_last() =~= Seq::<String>::empty());
            assert(lines_text(run.body@.drop_last()) == Seq::<char>::empty());
            assert(c.members@.drop_last().drop_last() =~= Seq::<crate::php_lib::ClassMember>::empty());
            assert(members_text(c.members@.drop_last().drop_last()) == Seq::<char>::empty());
            assert(c.members@.drop_last().last() == c.members@[0]);
            assert(c.members@.last() == c.members@[1]);
            assert(crate::php_lib::member_text(c.members@[0]) == function_text(ctor));
            assert(crate::php_lib::member_text(c.members@[1]) == function_text(run));
            assert(members_text(c.members@.drop_last()) =~= function_text(ctor));
            assert(members_text(c.members@) =~= function_text(ctor) + function_text(run));
            assert(function_text(ctor) =~= visibility_text(Visibility::Public()) + "function "@
                + "__construct"@ + "("@ + entries_params_text(
                transaction_params(t),
                Some(Visibility::Private()),
            ) + ") {"@ + "}"@);
            assert(function_text(run) =~= visibility_text(Visibility::Public()) + "function "@
                + "run"@ + "("@ + (optional_visibility_text(None) + "Transaction"@ + " $"@ + "t"@) + ") {"@
                + transaction_body(name@, t) + "}"@);
            let ext = "extends "@ + c.extends->Some_0@ + " "@;
            let mt = members_text(c.members@);
            assert(class_text(c) == Seq::<char>::empty() + "class "@ + c.name@ + " "@ + ext
                + Seq::<char>::empty() + "{"@ + mt + "}"@);
            assert(class_text(c) =~= transaction_text(name@, t));
        }
        let ct = c.to_string();
        push_text(&mut transactions, ct.as_str());
        k = k + 1;
    }
    let mut out = methods;
    push_text(&mut out, "}");
    push_text(&mut out, row_classes.as_str());
    push_text(&mut out, transactions.as_str());
    Ok(out)
}

/// The code generated from `files` (stem and text, in order), or `None`
/// when the run fails.
pub open spec fn run_output(fs: Seq<(Seq<char>, Seq<char>)>) -> Option<Seq<char>> {
    match collect_files_upto(fs, fs.len() as int) {
        Collected::Queries(m) => if has_empty_query(m) {
            None
        } else {
            Some(code_text(m))
        },
        _ => None,
    }
}

/// The whole run: collects the named queries of `files` (stem and text, in
/// order), then generates their code.
pub fn generate(files: &Vec<(String, String)>) -> (r: Result<String, GenerateError>)
    ensures
        r is Ok <==> run_output(entries_view(files@)) is Some,
        r is Ok ==> r->Ok_0@ == run_output(entries_view(files@))->0,
        match collect_files_upto(entries_view(files@), files@.len() as int) {
            Collected::Queries(m) => r is Err ==> (r matches Err(GenerateError::EmptyQuery { name })
                && exists|i: int| 0 <= i < m.len() && m[i].0 == name@ && m[i].1.len() == 0),
            Collected::Syntax(i) => r matches Err(GenerateError::Syntax { file }) && file@
                == files@[i].0@,
            Collected::Format(i) => r matches Err(GenerateError::Format { file }) && file@
                == files@[i].0@,
        },
{
    let queries = collect_files(files)?;
    let r = generate_code(&queries);
    proof {
        if r is Err {
            let name = r->Err_0->EmptyQuery_name;
            let i = choose|i: int|
                0 <= i < queries@.len() && queries@[i].0@ == name@ && queries@[i].1@.len() == 0;
            assert(entries_view(queries@)[i].0 == name@);
        }
    }
    r
}

/// The output of a run is a function of the files' names, texts and order
/// alone: running again on unchanged files gives the same text, byte for byte.
pub proof fn lemma_run_repeatable(a: Seq<(Seq<char>, Seq<char>)>, b: Seq<(Seq<char>, Seq<char>)>)
    requires
        a == b,
    ensures
        run_output(a) == run_output(b),
{
}

} // verus!
