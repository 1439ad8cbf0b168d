//! Which lines of a Rust source are test-only: the `fn` and `mod` items gated
//! to tests (`#[test]`, `#[bench]`, `#[cfg(test)]`, …), found in the file and
//! in the ordinary modules under it, each with its attribute lines. Those lines
//! are removed from the production source and counted as test lines.

use vstd::prelude::*;
use crate::rust_text::{
    max_end, min_line, spec_is_test_attr, spec_strip_test_lines, strip_test_lines, test_item_range, AttrModel,
};

verus! {

/// The two kinds of item the test-stripping pass looks at.
#[derive(Clone, Copy, PartialEq, Eq, Structural)]
pub enum SpanItemKind {
    Fn,
    Mod,
}

/// A `fn` or `mod` item as the test-stripping pass reads it: its attributes
/// and the line each starts on, its own first and last lines, and, for a
/// module, the `fn` and `mod` items reached inside it (through any other items,
/// but not into function bodies).
pub struct SpanItem {
    pub kind: SpanItemKind,
    pub attrs: Vec<AttrModel>,
    pub attr_lines: Vec<usize>,
    pub start: usize,
    pub end: usize,
    pub items: Vec<SpanItem>,
}

/// Some attribute of the list gates the item to tests.
pub open spec fn has_test_attr(attrs: Seq<AttrModel>) -> bool {
    exists|k: int| 0 <= k < attrs.len() && spec_is_test_attr(#[trigger] attrs[k])
}

/// The lines of a test-only item: from its first attribute line (or its own
/// first line, whichever is smaller) to its last line.
pub open spec fn item_range(it: SpanItem) -> (usize, usize) {
    (min_line(it.attr_lines@, it.start), it.end)
}

/// The test-only line ranges of `items` from item `i` on, in order: a test
/// item is taken whole; an ordinary module is searched; an ordinary function
/// is not.
pub open spec fn test_ranges_from(items: Seq<SpanItem>, i: int) -> Seq<(usize, usize)>
    decreases items, items.len() - i,
{
    if i < 0 || i >= items.len() {
        Seq::empty()
    } else {
        let it = items[i];
        let here = if has_test_attr(it.attrs@) {
            seq![item_range(it)]
        } else if it.kind == SpanItemKind::Mod {
            proof {
                assert(decreases_to!(items => it));
                assert(decreases_to!(it => it.items));
                assert(decreases_to!(it.items => it.items@));
            }
            test_ranges_from(it.items@, 0)
        } else {
            Seq::empty()
        };
        here + test_ranges_from(items, i + 1)
    }
}

/// The test-only line ranges of a file's items.
pub open spec fn test_ranges(items: Seq<SpanItem>) -> Seq<(usize, usize)> {
    test_ranges_from(items, 0)
}

fn any_test_attr(v: &Vec<AttrModel>) -> (r: bool)
    ensures
        r == has_test_attr(v@),
{
    let mut k: usize = 0;
    while k < v.len()
        invariant
            k <= v@.len(),
            forall|q: int| 0 <= q < k ==> !spec_is_test_attr(#[trigger] v@[q]),
        decreases v.len() - k,
    {
        if crate::rust_text::is_test_attr(&v[k]) {
            return true;
        }
        k = k + 1;
    }
    false
}

fn push_test_ranges(items: &Vec<SpanItem>, out: &mut Vec<(usize, usize)>)
    ensures
        final(out)@ == old(out)@ + test_ranges_from(items@, 0),
    decreases items@,
{
    let ghost start = out@;
    let mut k: usize = 0;
    while k < items.len()
        invariant
            k <= items@.len(),
            out@ + test_ranges_from(items@, k as int) == start + test_ranges_from(items@, 0),
        decreases items.len() - k,
    {
        let it = &items[k];
        let ghost before = out@;
        if any_test_attr(&it.attrs) {
            let r = test_item_range(&it.attr_lines, it.start, it.end);
            out.push(r);
            assert(out@ =~= before + seq![item_range(*it)]);
        } else if it.kind == SpanItemKind::Mod {
            proof {
                let ghost iv = items@;
                assert(decreases_to!(iv => iv[k as int]));
                assert(decreases_to!(iv[k as int] => iv[k as int].items));
                assert(decreases_to!(iv[k as int].items => iv[k as int].items@));
            }
            push_test_ranges(&it.items, out);
        } else {
            assert(out@ =~= before + Seq::<(usize, usize)>::empty());
        }
        assert(out@ + test_ranges_from(items@, k + 1) =~= before + test_ranges_from(items@, k as int));
        k = k + 1;
    }
    assert(test_ranges_from(items@, k as int) =~= Seq::<(usize, usize)>::empty());
}

/// The test-only line ranges of a file's items (see `test_ranges`).
pub fn collect_test_ranges(items: &Vec<SpanItem>) -> (r: Vec<(usize, usize)>)
    ensures
        r@ == test_ranges(items@),
{
    let mut out: Vec<(usize, usize)> = Vec::new();
    push_test_ranges(items, &mut out);
    assert(out@ =~= test_ranges(items@));
    out
}

/// The production source of a parsed Rust file and its number of test lines:
/// the lines of its test-only items (attribute lines included) are removed and
/// counted. A file without test items is returned unchanged, with none.
pub fn strip_test_items(text: &str, items: &Vec<SpanItem>) -> (r: (String, usize))
    requires
        max_end(test_ranges(items@)) < usize::MAX,
    ensures
        (r.0@, r.1 as nat) == spec_strip_test_lines(text@, test_ranges(items@)),
{
    let ranges = collect_test_ranges(items);
    strip_test_lines(text, &ranges)
}

} // verus!
