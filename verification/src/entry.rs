//! A table cell.
//!
//! An entry distinguishes empty (`Nil`) positions, numeric (`Num`)
//! positions, and arbitrary payloads (`Obj`). Equality is structural, and
//! ordering is defined only between entries of the same variant: comparing
//! different variants yields no order.

use vstd::prelude::*;
use vstd::std_specs::cmp::PartialOrdSpec;
use vstd::std_specs::cmp::PartialOrdSpecImpl;
use vstd::std_specs::convert::FromSpecImpl;

use crate::number::{num_cmp, num_str_of, number_to_string};

verus! {

/// A table cell, generic over the payload carried by its `Obj` variant.
///
/// `Num` holds a `kserd::Number`, which gives total equality and ordering
/// across integer and floating representations.
#[derive(Debug, Clone, PartialEq, Eq, Hash)]
pub enum Entry<T> {
    /// An empty entry.
    Nil,
    /// A numeric entry.
    Num(kserd::Number),
    /// An arbitrary payload.
    Obj(T),
}

impl<T> Entry<T> {
    /// The entry is the `Nil` variant.
    pub fn is_nil(&self) -> (r: bool)
        ensures
            r == (*self is Nil),
    {
        matches!(self, Entry::Nil)
    }

    /// The entry is the `Num` variant.
    pub fn is_num(&self) -> (r: bool)
        ensures
            r == (*self is Num),
    {
        matches!(self, Entry::Num(_))
    }

    /// The entry is the `Obj` variant.
    pub fn is_obj(&self) -> (r: bool)
        ensures
            r == (*self is Obj),
    {
        matches!(self, Entry::Obj(_))
    }

    /// The numeric value, if the entry is the `Num` variant.
    pub fn num(&self) -> (r: Option<kserd::Number>)
        ensures
            *self is Num ==> r == Some(self->Num_0),
            !(*self is Num) ==> r is None,
    {
        match self {
            Entry::Num(n) => Some(*n),
            _ => None,
        }
    }

    /// A reference to the payload, if the entry is the `Obj` variant.
    pub fn obj(&self) -> (r: Option<&T>)
        ensures
            *self is Obj ==> r is Some && *r->Some_0 == self->Obj_0,
            !(*self is Obj) ==> r is None,
    {
        match self {
            Entry::Obj(t) => Some(t),
            _ => None,
        }
    }
}

/// What `as_str` renders an entry as: the literal `-` for `Nil`, the
/// rendering of the numeric value for `Num`, and the payload's text for
/// `Obj`.
pub open spec fn entry_text(e: Entry<Seq<char>>) -> Seq<char> {
    match e {
        Entry::Nil => "-"@,
        Entry::Num(n) => num_str_of(n),
        Entry::Obj(s) => s,
    }
}

/// The cell with its payload, if any, replaced by the payload's text.
pub open spec fn str_entry_chars(e: Entry<&str>) -> Entry<Seq<char>> {
    match e {
        Entry::Nil => Entry::Nil,
        Entry::Num(n) => Entry::Num(n),
        Entry::Obj(s) => Entry::Obj(s@),
    }
}

/// The cell with its owned payload, if any, replaced by the payload's text.
pub open spec fn string_entry_chars(e: Entry<String>) -> Entry<Seq<char>> {
    match e {
        Entry::Nil => Entry::Nil,
        Entry::Num(n) => Entry::Num(n),
        Entry::Obj(s) => Entry::Obj(s@),
    }
}

impl<'a> Entry<&'a str> {
    /// Render this entry as text: `-` for `Nil`, the number's rendering
    /// for `Num`, the payload itself for `Obj`.
    pub fn as_str(&self) -> (r: String)
        ensures
            r@ == entry_text(str_entry_chars(*self)),
    {
        match self {
            Entry::Nil => "-".to_owned(),
            Entry::Num(n) => number_to_string(n),
            Entry::Obj(s) => (*s).to_owned(),
        }
    }
}

impl Entry<String> {
    /// Render this entry as text: `-` for `Nil`, the number's rendering
    /// for `Num`, the payload itself for `Obj`.
    pub fn as_str(&self) -> (r: String)
        ensures
            r@ == entry_text(string_entry_chars(*self)),
    {
        match self {
            Entry::Nil => "-".to_owned(),
            Entry::Num(n) => number_to_string(n),
            Entry::Obj(s) => s.clone(),
        }
    }
}

impl<T> Default for Entry<T> {
    /// A default entry is empty.
    fn default() -> (r: Self)
        ensures
            r is Nil,
    {
        Entry::Nil
    }
}

impl<T: Copy> From<&Entry<T>> for Entry<T> {
    /// Copy a borrowed entry.
    fn from(e: &Entry<T>) -> (r: Self) {
        match e {
            Entry::Nil => Entry::Nil,
            Entry::Num(x) => Entry::Num(*x),
            Entry::Obj(x) => Entry::Obj(*x),
        }
    }
}

impl<T: Copy> FromSpecImpl<&Entry<T>> for Entry<T> {
    open spec fn obeys_from_spec() -> bool {
        true
    }

    open spec fn from_spec(e: &Entry<T>) -> Entry<T> {
        *e
    }
}

impl<T: PartialOrd> PartialOrd for Entry<T> {
    /// Entries of the same variant compare within the variant; entries of
    /// different variants have no order.
    fn partial_cmp(&self, rhs: &Entry<T>) -> (r: Option<core::cmp::Ordering>) {
        match (self, rhs) {
            (Entry::Nil, Entry::Nil) => Some(core::cmp::Ordering::Equal),
            (Entry::Num(lhs), Entry::Num(rhs)) => lhs.partial_cmp(rhs),
            (Entry::Obj(lhs), Entry::Obj(rhs)) => lhs.partial_cmp(rhs),
            _ => None,
        }
    }
}

impl<T: PartialOrd> PartialOrdSpecImpl for Entry<T> {
    open spec fn obeys_partial_cmp_spec() -> bool {
        <T as PartialOrdSpec>::obeys_partial_cmp_spec()
    }

    open spec fn partial_cmp_spec(&self, rhs: &Entry<T>) -> Option<core::cmp::Ordering> {
        match (self, rhs) {
            (Entry::Nil, Entry::Nil) => Some(core::cmp::Ordering::Equal),
            (Entry::Num(lhs), Entry::Num(rhs)) => num_cmp(*lhs, *rhs),
            (Entry::Obj(lhs), Entry::Obj(rhs)) => lhs.partial_cmp_spec(rhs),
            _ => None,
        }
    }
}

} // verus!
