//! Functions that are written in the language itself. Their definitions
//! are evaluated when the default environment is made.

use vstd::prelude::*;

verus! {

/// The definition of `map`: the list of what `f` gives for each item.
pub open spec fn map_source() -> Seq<char> {
    "
(defn map (f lis)
  (if (empty? lis)
    (quote ())
    (cons (f (first lis)) (map f (rest lis)))))
"@
}

/// The definition of `reduce`: the items folded from the right with `f`,
/// starting from `acc`.
pub open spec fn reduce_source() -> Seq<char> {
    "
(defn reduce (f acc lis)
  (if (empty? lis)
    acc
    (f (first lis) (reduce f acc (rest lis)))))
"@
}

/// The definitions, in the order in which they are evaluated.
pub open spec fn sources() -> Seq<Seq<char>> {
    seq![map_source(), reduce_source()]
}

/// The definition of `map`.
pub fn lisp_map() -> (r: &'static str)
    ensures
        r@ == map_source(),
{
    "
(defn map (f lis)
  (if (empty? lis)
    (quote ())
    (cons (f (first lis)) (map f (rest lis)))))
"
}

/// The definition of `reduce`.
pub fn lisp_reduce() -> (r: &'static str)
    ensures
        r@ == reduce_source(),
{
    "
(defn reduce (f acc lis)
  (if (empty? lis)
    acc
    (f (first lis) (reduce f acc (rest lis)))))
"
}

/// The definitions, in the order in which they are evaluated.
pub fn functions_nonnative() -> (r: Vec<&'static str>)
    ensures
        r@.len() == 2,
        r@[0]@ == map_source(),
        r@[1]@ == reduce_source(),
{
    let mut list: Vec<&'static str> = Vec::new();
    list.push(lisp_map());
    list.push(lisp_reduce());
    list
}

} // verus!
