//! A small model of classes, functions and parameters, rendered to text.
use string_builder::Builder;
use std::string::FromUtf8Error;
use vstd::prelude::*;

verus! {

#[verifier::external_type_specification]
#[verifier::external_body]
pub struct ExBuilder(Builder);

#[verifier::external_type_specification]
#[verifier::external_body]
pub struct ExFromUtf8Error(FromUtf8Error);

/// The text that a builder holds, where its buffer is valid UTF-8.
pub uninterp spec fn builder_text(b: Builder) -> Seq<char>;

/// The builder's buffer is valid UTF-8.
pub uninterp spec fn builder_valid(b: Builder) -> bool;

/// Relies on `Builder::default`: an empty buffer.
#[verifier::external_body]
fn new_builder() -> (r: Builder)
    ensures
        builder_text(r) == Seq::<char>::empty(),
        builder_valid(r),
{
    Builder::default()
}

/// Relies on `Builder::append`: the bytes of `s` go to the end of the buffer.
/// The UTF-8 encoding of a `str` appended to valid UTF-8 stays valid.
#[verifier::external_body]
fn append(b: &mut Builder, s: &str)
    ensures
        builder_valid(*old(b)) ==> builder_valid(*final(b)),
        builder_valid(*old(b)) ==> builder_text(*final(b)) == builder_text(*old(b)) + s@,
{
    b.append(s)
}

/// Relies on `Builder::string`: the buffer decoded as UTF-8, which succeeds
/// on a valid buffer.
#[verifier::external_body]
fn built(b: Builder) -> (r: Result<String, FromUtf8Error>)
    requires
        builder_valid(b),
    ensures
        r is Ok,
        r is Ok ==> r->Ok_0@ == builder_text(b),
{
    b.string()
}

fn finish(b: Builder) -> (r: String)
    requires
        builder_valid(b),
    ensures
        r@ == builder_text(b),
{
    match built(b) {
        Ok(s) => s,
        Err(_) => String::new(),
    }
}

/// The visibility keyword of a member or a promoted parameter.
#[derive(Debug, Clone, Copy)]
pub enum Visibility {
    Public(),
    Private(),
    Protected(),
}

pub open spec fn visibility_text(v: Visibility) -> Seq<char> {
    match v {
        Visibility::Public() => "public "@,
        Visibility::Private() => "private "@,
        Visibility::Protected() => "protected "@,
    }
}

pub open spec fn optional_visibility_text(v: Option<Visibility>) -> Seq<char> {
    match v {
        Some(x) => visibility_text(x),
        None => Seq::empty(),
    }
}

impl Visibility {
    /// The keyword, followed by a space.
    pub fn to_string(&self) -> (r: String)
        ensures
            r@ == visibility_text(*self),
    {
        match self {
            Visibility::Public() => "public ".to_owned(),
            Visibility::Private() => "private ".to_owned(),
            Visibility::Protected() => "protected ".to_owned(),
        }
    }
}

/// A function parameter; one with a visibility is a promoted property.
#[derive(Debug, Clone)]
pub struct Param {
    pub name: String,
    pub param_type: String,
    pub visibility: Option<Visibility>,
}

pub open spec fn param_text(p: Param) -> Seq<char> {
    optional_visibility_text(p.visibility) + p.param_type@ + " $"@ + p.name@
}

/// The parameters as text, joined by commas.
pub open spec fn params_text(ps: Seq<Param>) -> Seq<char>
    decreases ps.len(),
{
    if ps.len() == 0 {
        Seq::empty()
    } else if ps.len() == 1 {
        param_text(ps[0])
    } else {
        params_text(ps.drop_last()) + ","@ + param_text(ps.last())
    }
}

pub open spec fn lines_text(b: Seq<String>) -> Seq<char>
    decreases b.len(),
{
    if b.len() == 0 {
        Seq::empty()
    } else {
        lines_text(b.drop_last()) + b.last()@
    }
}

/// A function: doc comment, visibility, name, parameters and body statements.
pub struct Function {
    pub name: String,
    pub params: Vec<Param>,
    pub body: Vec<String>,
    pub visibility: Option<Visibility>,
    pub comment: String,
}

pub open spec fn function_text(f: Function) -> Seq<char> {
    f.comment@ + optional_visibility_text(f.visibility) + "function "@ + f.name@ + "("@
        + params_text(f.params@) + ") {"@ + lines_text(f.body@) + "}"@
}

impl Function {
    /// The function as source text.
    pub fn to_string(&self) -> (r: String)
        ensures
            r@ == function_text(*self),
    {
        let mut b = new_builder();
        append(&mut b, self.comment.as_str());
        match &self.visibility {
            Some(v) => {
                let t = v.to_string();
                append(&mut b, t.as_str());
            },
            None => {},
        }
        append(&mut b, "function ");
        append(&mut b, self.name.as_str());
        append(&mut b, "(");
        let ghost head = builder_text(b);
        let mut i: usize = 0;
        while i < self.params.len()
            invariant
                i <= self.params@.len(),
                builder_valid(b),
                builder_text(b) == head + params_text(self.params@.take(i as int)),
            decreases self.params@.len() - i,
        {
            let p = &self.params[i];
            if i > 0 {
                append(&mut b, ",");
            }
            match &p.visibility {
                Some(v) => {
                    let t = v.to_string();
                    append(&mut b, t.as_str());
                },
                None => {},
            }
            append(&mut b, p.param_type.as_str());
            append(&mut b, " $");
            append(&mut b, p.name.as_str());
            assert(self.params@.take(i + 1).drop_last() =~= self.params@.take(i as int));
            assert(self.params@.take(i + 1).last() == self.params@[i as int]);
            i = i + 1;
        }
        assert(self.params@.take(i as int) =~= self.params@);
        append(&mut b, ") {");
        let ghost head = builder_text(b);
        let mut j: usize = 0;
        while j < self.body.len()
            invariant
                j <= self.body@.len(),
                builder_valid(b),
                builder_text(b) == head + lines_text(self.body@.take(j as int)),
            decreases self.body@.len() - j,
        {
            append(&mut b, self.body[j].as_str());
            assert(self.body@.take(j + 1).drop_last() =~= self.body@.take(j as int));
            j = j + 1;
        }
        assert(self.body@.take(j as int) =~= self.body@);
        append(&mut b, "}");
        finish(b)
    }
}

/// What a class may hold.
pub enum ClassMember {
    Function(Function),
}

pub open spec fn member_text(m: ClassMember) -> Seq<char> {
    match m {
        ClassMember::Function(f) => function_text(f),
    }
}

pub open spec fn members_text(ms: Seq<ClassMember>) -> Seq<char>
    decreases ms.len(),
{
    if ms.len() == 0 {
        Seq::empty()
    } else {
        members_text(ms.drop_last()) + member_text(ms.last())
    }
}

impl ClassMember {
    pub fn to_string(&self) -> (r: String)
        ensures
            r@ == member_text(*self),
    {
        match self {
            ClassMember::Function(f) => f.to_string(),
        }
    }
}

/// A class: name, optional base class, implemented interfaces, abstract flag,
/// members and doc comment.
pub struct Class {
    pub name: String,
    pub extends: Option<String>,
    pub implements: Vec<String>,
    pub is_abstract: bool,
    pub members: Vec<ClassMember>,
    pub comment: String,
}

/// The first `n` interface names, each followed by `, ` but the last of all,
/// which is followed by a space.
pub open spec fn implements_list(im: Seq<String>, n: int) -> Seq<char>
    decreases n,
{
    if n <= 0 {
        Seq::empty()
    } else {
        implements_list(im, n - 1) + im[n - 1]@ + if n < im.len() {
            ", "@
        } else {
            " "@
        }
    }
}

pub open spec fn class_text(c: Class) -> Seq<char> {
    (if c.is_abstract {
        "abstract "@
    } else {
        Seq::empty()
    }) + "class "@ + c.name@ + " "@ + match c.extends {
        Some(e) => "extends "@ + e@ + " "@,
        None => Seq::empty(),
    } + if c.implements@.len() > 0 {
        "implements "@ + implements_list(c.implements@, c.implements@.len() as int)
    } else {
        Seq::empty()
    } + "{"@ + members_text(c.members@) + "}"@
}

impl Class {
    /// The class as source text; its doc comment is not rendered.
    pub fn to_string(&self) -> (r: String)
        ensures
            r@ == class_text(*self),
    {
        let mut b = new_builder();
        if self.is_abstract {
            append(&mut b, "abstract ");
        }
        append(&mut b, "class ");
        append(&mut b, self.name.as_str());
        append(&mut b, " ");
        match &self.extends {
            Some(e) => {
                append(&mut b, "extends ");
                append(&mut b, e.as_str());
                append(&mut b, " ");
            },
            None => {},
        }
        if self.implements.len() > 0 {
            append(&mut b, "implements ");
            let ghost head = builder_text(b);
            let n = self.implements.len();
            let mut i: usize = 0;
            while i < n
                invariant
                    n == self.implements@.len(),
                    i <= n,
                    builder_valid(b),
                    builder_text(b) == head + implements_list(self.implements@, i as int),
                decreases n - i,
            {
                append(&mut b, self.implements[i].as_str());
                if i + 1 < n {
                    append(&mut b, ", ");
                } else {
                    append(&mut b, " ");
                }
                i = i + 1;
            }
        }
        append(&mut b, "{");
        let ghost head = builder_text(b);
        let mut j: usize = 0;
        while j < self.members.len()
            invariant
                j <= self.members@.len(),
                builder_valid(b),
                builder_text(b) == head + members_text(self.members@.take(j as int)),
            decreases self.members@.len() - j,
        {
            let t = self.members[j].to_string();
            append(&mut b, t.as_str());
            assert(self.members@.take(j + 1).drop_last() =~= self.members@.take(j as int));
            j = j + 1;
        }
        assert(self.members@.take(j as int) =~= self.members@);
        append(&mut b, "}");
        finish(b)
    }
}

} // verus!
