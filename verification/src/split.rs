//! Splitting raw text into a program and an input at the first separator.

use vstd::prelude::*;
use vstd::string::StrSliceExecFns;

verus! {

/// Position of the first separator in `text` at or after `i`, if any.
pub open spec fn sep_from(text: Seq<char>, i: int) -> Option<int>
    decreases text.len() - i,
{
    if i < 0 || i >= text.len() {
        None
    } else if text[i] == '/' {
        Some(i)
    } else {
        sep_from(text, i + 1)
    }
}

/// The program part of raw text: everything before the first separator, or
/// the whole text when no separator occurs.
pub open spec fn split_program(text: Seq<char>) -> Seq<char> {
    match sep_from(text, 0) {
        Some(i) => text.subrange(0, i),
        None => text,
    }
}

/// The input part of raw text: everything after the first separator, or
/// empty when no separator occurs. Only the first separator splits, so
/// later separators are kept literally.
pub open spec fn split_input(text: Seq<char>) -> Seq<char> {
    match sep_from(text, 0) {
        Some(i) => text.subrange(i + 1, text.len() as int),
        None => Seq::empty(),
    }
}

/// What `sep_from` returns is exactly the first separator position: a
/// separator stands there and none stands earlier; `None` means no
/// separator occurs at all.
pub proof fn lemma_sep_from_first(text: Seq<char>, i: int)
    requires
        0 <= i <= text.len(),
    ensures
        match sep_from(text, i) {
            Some(j) => i <= j < text.len() && text[j] == '/' && (forall|k: int|
                i <= k < j ==> text[k] != '/'),
            None => forall|k: int| i <= k < text.len() ==> text[k] != '/',
        },
    decreases text.len() - i,
{
    if i < text.len() && text[i] != '/' {
        lemma_sep_from_first(text, i + 1);
    }
}

/// Split raw text at the first `/`: the part before it becomes the program,
/// the part after it becomes the input. Without a separator the whole text
/// is the program and the input is empty. At most one split happens, so any
/// separator inside the input part stays there literally.
pub fn split_program_input(text: &str) -> (r: (String, String))
    ensures
        r.0@ == split_program(text@),
        r.1@ == split_input(text@),
{
    let n = text.unicode_len();
    let mut k: usize = 0;
    while k < n
        invariant
            k <= n,
            n == text@.len(),
            sep_from(text@, 0) == sep_from(text@, k as int),
        decreases n - k,
    {
        if text.get_char(k) == '/' {
            assert(sep_from(text@, k as int) == Some(k as int));
            let p = text.substring_char(0, k);
            let q = text.substring_char(k + 1, n);
            return (p.to_owned(), q.to_owned());
        }
        assert(sep_from(text@, k as int) == sep_from(text@, k + 1));
        k = k + 1;
    }
    assert(sep_from(text@, k as int) == None::<int>);
    (text.to_owned(), String::new())
}

} // verus!
