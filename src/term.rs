//! Decoded terms and their mathematical models.
use vstd::prelude::*;

use crate::atom::Atom;
use crate::ident::{Pid, PidModel, Reference, ReferenceModel};

verus! {

/// A decoded term.
#[derive(Debug, PartialEq)]
pub enum Term {
    Nil,
    Integer(i32),
    /// A sign and little-endian base-256 digits of the magnitude.
    BigInteger { negative: bool, digits: Vec<u8> },
    /// The IEEE-754 bit pattern of a double.
    Float(u64),
    /// The printed text of a float in the older encoding, up to its first null byte.
    FloatText(Vec<u8>),
    Atom(Atom),
    Pid(Pid),
    Reference(Reference),
    Tuple(Vec<Term>),
    /// The elements of a list followed by its tail.
    List(Vec<Term>),
    Binary(Vec<u8>),
}

/// The mathematical value of a `Term`.
pub enum TermModel {
    Nil,
    Integer(int),
    BigInteger { negative: bool, digits: Seq<u8> },
    Float(u64),
    FloatText(Seq<u8>),
    Atom(Seq<char>),
    Pid(PidModel),
    Reference(ReferenceModel),
    Tuple(Seq<TermModel>),
    List(Seq<TermModel>),
    Binary(Seq<u8>),
}

pub open spec fn term_model(t: Term) -> TermModel
    decreases t, 0nat,
{
    match t {
        Term::Nil => TermModel::Nil,
        Term::Integer(i) => TermModel::Integer(i as int),
        Term::BigInteger { negative, digits } => TermModel::BigInteger {
            negative,
            digits: digits@,
        },
        Term::Float(bits) => TermModel::Float(bits),
        Term::FloatText(text) => TermModel::FloatText(text@),
        Term::Atom(a) => TermModel::Atom(a@),
        Term::Pid(p) => TermModel::Pid(p@),
        Term::Reference(r) => TermModel::Reference(r@),
        Term::Tuple(v) => TermModel::Tuple(term_models(v@, v@.len())),
        Term::List(v) => TermModel::List(term_models(v@, v@.len())),
        Term::Binary(b) => TermModel::Binary(b@),
    }
}

/// The models of the first `n` terms of `s`.
pub open spec fn term_models(s: Seq<Term>, n: nat) -> Seq<TermModel>
    decreases s, n,
{
    if n == 0 || n > s.len() {
        Seq::empty()
    } else {
        term_models(s, (n - 1) as nat).push(term_model(s[n - 1]))
    }
}

impl View for Term {
    type V = TermModel;

    open spec fn view(&self) -> TermModel {
        term_model(*self)
    }
}

#[derive(Copy, Clone, Debug, PartialEq, Eq, Structural)]
pub enum TermKind {
    Nil,
    Integer,
    BigInteger,
    Float,
    Atom,
    Pid,
    Reference,
    Tuple,
    List,
    Binary,
}

pub open spec fn kind_of(t: TermModel) -> TermKind {
    match t {
        TermModel::Nil => TermKind::Nil,
        TermModel::Integer(_) => TermKind::Integer,
        TermModel::BigInteger { .. } => TermKind::BigInteger,
        TermModel::Float(_) | TermModel::FloatText(_) => TermKind::Float,
        TermModel::Atom(_) => TermKind::Atom,
        TermModel::Pid(_) => TermKind::Pid,
        TermModel::Reference(_) => TermKind::Reference,
        TermModel::Tuple(_) => TermKind::Tuple,
        TermModel::List(_) => TermKind::List,
        TermModel::Binary(_) => TermKind::Binary,
    }
}


impl Term {
    /// Which variant the term is.
    pub fn kind(&self) -> (r: TermKind)
        ensures
            r == kind_of(self@),
    {
        match self {
            Term::Nil => TermKind::Nil,
            Term::Integer(_) => TermKind::Integer,
            Term::BigInteger { .. } => TermKind::BigInteger,
            Term::Float(_) | Term::FloatText(_) => TermKind::Float,
            Term::Atom(_) => TermKind::Atom,
            Term::Pid(_) => TermKind::Pid,
            Term::Reference(_) => TermKind::Reference,
            Term::Tuple(_) => TermKind::Tuple,
            Term::List(_) => TermKind::List,
            Term::Binary(_) => TermKind::Binary,
        }
    }
}

/// The models of a prefix do not depend on what follows it.
pub proof fn lemma_term_models_prefix(s: Seq<Term>, x: Term, n: nat)
    requires
        n <= s.len(),
    ensures
        term_models(s.push(x), n) == term_models(s, n),
        term_models(s, n).len() == n,
    decreases n,
{
    if n > 0 {
        lemma_term_models_prefix(s, x, (n - 1) as nat);
        assert(s.push(x)[n - 1] == s[n - 1]);
    }
}

/// The models of a pushed sequence: the models before, and the new one.
pub proof fn lemma_term_models_push(s: Seq<Term>, x: Term)
    ensures
        term_models(s.push(x), s.len() + 1) == term_models(s, s.len()).push(term_model(x)),
        term_models(s, s.len()).len() == s.len(),
{
    lemma_term_models_prefix(s, x, s.len());
    assert(s.push(x)[s.len() as int] == x);
}

} // verus!
