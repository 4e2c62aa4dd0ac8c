//! A list of elements addressed by index: an insertion or a deletion moves the
//! positions of the elements after it by one.

use vstd::prelude::*;

verus! {

/// A list of elements; a position in it is an index.
#[allow(non_camel_case_types)]
pub struct clist<T> {
    pub items: Vec<T>,
}

impl<T> View for clist<T> {
    type V = Seq<T>;

    open spec fn view(&self) -> Seq<T> {
        self.items@
    }
}

impl<T> clist<T> {
    /// The number of elements.
    pub fn count(&self) -> (n: usize)
        ensures
            n == self@.len(),
    {
        self.items.len()
    }

    /// An iterator at the first element.
    pub fn iter(&self) -> (it: CListIterator)
        ensures
            it.cur == 0,
    {
        CListIterator { cur: 0 }
    }
}

/// A new, empty list.
pub fn clist_new<T>() -> (l: clist<T>)
    ensures
        l@ == Seq::<T>::empty(),
{
    clist { items: Vec::new() }
}

/// Inserts `data` after the element at `iter`, or at the end when `iter` is
/// `None`. Gives 0.
pub fn clist_insert_after<T>(lst: &mut clist<T>, iter: Option<usize>, data: T) -> (r: i32)
    requires
        iter matches Some(k) ==> k < old(lst)@.len(),
    ensures
        r == 0,
        final(lst)@ == match iter {
            Some(k) => old(lst)@.insert(k + 1, data),
            None => old(lst)@.push(data),
        },
{
    let n = lst.items.len();
    match iter {
        Some(k) => {
            assert(k < n);
            lst.items.insert(k + 1, data)
        },
        None => lst.items.push(data),
    }
    0
}

/// Takes the element at `iter` out of the list; gives the position of the
/// element that followed it, if any, and the element.
pub fn clist_delete<T>(lst: &mut clist<T>, iter: usize) -> (r: (Option<usize>, T))
    requires
        iter < old(lst)@.len(),
    ensures
        final(lst)@ == old(lst)@.remove(iter as int),
        r.1 == old(lst)@[iter as int],
        r.0 == (if iter + 1 < old(lst)@.len() { Some(iter) } else { None::<usize> }),
{
    let data = lst.items.remove(iter);
    if iter < lst.items.len() {
        (Some(iter), data)
    } else {
        (None, data)
    }
}

/// The position that `indx` points to: counted from 0, a negative one
/// pointing to the first element; none beyond the end.
pub open spec fn spec_clist_nth(len: int, indx: i32) -> Option<usize> {
    let k: int = if indx <= 0 { 0 } else { indx as int };
    if k < len { Some(k as usize) } else { None }
}

pub fn clist_nth<T>(lst: &clist<T>, indx: i32) -> (r: Option<usize>)
    ensures
        r == spec_clist_nth(lst@.len() as int, indx),
{
    let k: usize = if indx <= 0 { 0 } else { indx as usize };
    if k < lst.items.len() { Some(k) } else { None }
}

/// The element that `indx` points to (see `clist_nth`).
pub fn clist_nth_data<T>(lst: &clist<T>, indx: i32) -> (r: Option<&T>)
    ensures
        match spec_clist_nth(lst@.len() as int, indx) {
            Some(k) => r == Some(&lst@[k as int]),
            None => r is None,
        },
{
    match clist_nth(lst, indx) {
        Some(k) => Some(&lst.items[k]),
        None => None,
    }
}

/// Calls `func` on each element, first to last.
pub fn clist_foreach<T, F: Fn(&T)>(lst: &clist<T>, func: F)
    requires
        forall|k: int| 0 <= k < lst@.len() ==> call_requires(func, (&lst@[k],)),
{
    let n = lst.items.len();
    let mut k: usize = 0;
    while k < n
        invariant
            n == lst@.len(),
            0 <= k <= n,
            forall|m: int| 0 <= m < lst@.len() ==> call_requires(func, (&lst@[m],)),
        decreases n - k,
    {
        func(&lst.items[k]);
        k = k + 1;
    }
}

/// A position in a list, walked from first to last.
pub struct CListIterator {
    pub cur: usize,
}

impl CListIterator {
    /// The element at the position, which then moves on; `None` past the end.
    pub fn next<'a, T>(&mut self, lst: &'a clist<T>) -> (r: Option<&'a T>)
        ensures
            old(self).cur < lst@.len() ==> r == Some(&lst@[old(self).cur as int]) && final(self).cur == old(self).cur + 1,
            old(self).cur >= lst@.len() ==> r is None && final(self).cur == old(self).cur,
    {
        if self.cur < lst.items.len() {
            let d = &lst.items[self.cur];
            self.cur = self.cur + 1;
            Some(d)
        } else {
            None
        }
    }
}

/// Deleting the element just inserted gives the list back, and the element
/// that the delete hands out is the one that was inserted.
pub proof fn law_clist_delete_undoes_insert<T>(before: Seq<T>, k: int, data: T)
    requires
        0 <= k < before.len(),
    ensures
        before.insert(k + 1, data)[k + 1] == data,
        before.insert(k + 1, data).remove(k + 1) == before,
        before.push(data)[before.len() as int] == data,
        before.push(data).remove(before.len() as int) == before,
{
    assert(before.insert(k + 1, data).remove(k + 1) =~= before);
    assert(before.push(data).remove(before.len() as int) =~= before);
}

} // verus!
