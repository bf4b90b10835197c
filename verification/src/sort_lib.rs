//! Ordering the decoded image files by the number in their names.
use vstd::prelude::*;
use std::cmp::Ordering;
use crate::frame_names::{frame_file_name_spec, frame_key, frame_sort_key, lemma_frame_key_of_file_name};

verus! {

/// The order of two numbers, as `u32::cmp` gives it.
pub open spec fn number_order(a: u32, b: u32) -> Ordering {
    if a < b {
        Ordering::Less
    } else if a == b {
        Ordering::Equal
    } else {
        Ordering::Greater
    }
}

/// The opposite order.
pub open spec fn reversed(o: Ordering) -> Ordering {
    match o {
        Ordering::Less => Ordering::Greater,
        Ordering::Equal => Ordering::Equal,
        Ordering::Greater => Ordering::Less,
    }
}

/// Orders two image file names by the numbers in them: each name loses every
/// `.png` and is read as a `u32`, and the two numbers are compared.
///
/// A name that does not read as a number has no place in the order; the
/// caller passes names that do.
pub fn sort_the_vector_right(a: &str, b: &str) -> (res: Ordering)
    requires
        frame_key(a@) is Some,
        frame_key(b@) is Some,
    ensures
        res == number_order(frame_key(a@).unwrap(), frame_key(b@).unwrap()),
{
    let a_int = match frame_sort_key(a) {
        Some(k) => k,
        None => 0,
    };
    let b_int = match frame_sort_key(b) {
        Some(k) => k,
        None => 0,
    };
    if a_int < b_int {
        Ordering::Less
    } else if a_int == b_int {
        Ordering::Equal
    } else {
        Ordering::Greater
    }
}

/// Law: two names are ordered as the numbers in them are: `Less` exactly
/// when the first number is smaller, `Equal` exactly when they are the same
/// number, `Greater` exactly when the first is larger.
pub proof fn lemma_order_is_numeric(a: Seq<char>, b: Seq<char>)
    requires
        frame_key(a) is Some,
        frame_key(b) is Some,
    ensures
        (number_order(frame_key(a).unwrap(), frame_key(b).unwrap()) == Ordering::Less) == (frame_key(a).unwrap()
            < frame_key(b).unwrap()),
        (number_order(frame_key(a).unwrap(), frame_key(b).unwrap()) == Ordering::Equal) == (frame_key(a).unwrap()
            == frame_key(b).unwrap()),
        (number_order(frame_key(a).unwrap(), frame_key(b).unwrap()) == Ordering::Greater) == (frame_key(
            a,
        ).unwrap() > frame_key(b).unwrap()),
{
}

/// Law: swapping the two names reverses the order.
pub proof fn lemma_order_reverses(a: Seq<char>, b: Seq<char>)
    requires
        frame_key(a) is Some,
        frame_key(b) is Some,
    ensures
        number_order(frame_key(b).unwrap(), frame_key(a).unwrap()) == reversed(
            number_order(frame_key(a).unwrap(), frame_key(b).unwrap()),
        ),
{
}

/// Law: the order is transitive, so that sorting by it is well defined.
pub proof fn lemma_order_transitive(a: Seq<char>, b: Seq<char>, c: Seq<char>)
    requires
        frame_key(a) is Some,
        frame_key(b) is Some,
        frame_key(c) is Some,
        number_order(frame_key(a).unwrap(), frame_key(b).unwrap()) != Ordering::Greater,
        number_order(frame_key(b).unwrap(), frame_key(c).unwrap()) != Ordering::Greater,
    ensures
        number_order(frame_key(a).unwrap(), frame_key(c).unwrap()) != Ordering::Greater,
{
}

/// Law: the files written for frames `i` and `j` are ordered as `i` and `j`.
pub proof fn lemma_file_names_order_as_numbers(i: u32, j: u32)
    ensures
        frame_key(frame_file_name_spec(i)) is Some,
        frame_key(frame_file_name_spec(j)) is Some,
        number_order(
            frame_key(frame_file_name_spec(i)).unwrap(),
            frame_key(frame_file_name_spec(j)).unwrap(),
        ) == number_order(i, j),
{
    lemma_frame_key_of_file_name(i);
    lemma_frame_key_of_file_name(j);
}

} // verus!
