//! Paths as the tree reads them: components joined by a separator.

use crate::error::Error;
use vstd::hash_set::StringHashSet;
use vstd::prelude::*;
use vstd::utf8::{encode_utf8, encode_utf8_decode_utf8};

verus! {

/// What stands between two components of a path.
pub const SEPARATOR: char = '/';

/// The deepest indent that a node can record.
pub const MAX_INDENT: usize = 255;

/// A path has at least one component, and none of its components is empty.
pub open spec fn well_formed(path: Seq<char>) -> bool {
    &&& path.len() > 0
    &&& path[0] != SEPARATOR
    &&& path.last() != SEPARATOR
    &&& forall|i: int| 0 < i < path.len() ==> !(path[i - 1] == SEPARATOR && #[trigger] path[i] == SEPARATOR)
}

/// How many separators stand among the first `n` characters.
pub open spec fn separators(path: Seq<char>, n: int) -> nat
    decreases n,
{
    if n <= 0 || n > path.len() {
        0
    } else {
        separators(path, n - 1) + if path[n - 1] == SEPARATOR { 1nat } else { 0nat }
    }
}

/// How many directories lie above the last component.
pub open spec fn depth(path: Seq<char>) -> nat {
    separators(path, path.len() as int)
}

/// A path that a tree can hold.
pub open spec fn valid(path: Seq<char>) -> bool {
    well_formed(path) && depth(path) <= MAX_INDENT
}

/// The error that a path which is not valid is refused with.
pub open spec fn fault(path: Seq<char>) -> Error {
    if well_formed(path) {
        Error::TooDeep
    } else {
        Error::InvalidPath
    }
}

/// The texts of a list of strings.
pub open spec fn texts(list: Seq<&str>) -> Seq<Seq<char>> {
    list.map_values(|s: &str| s@)
}

/// The texts that occur in a list of strings.
pub open spec fn text_set(list: Seq<&str>) -> Set<Seq<char>> {
    Set::new(|text: Seq<char>| exists|i: int| 0 <= i < list.len() && (#[trigger] list[i])@ == text)
}

/// The count of separators grows with the prefix.
pub proof fn lemma_separators_monotonic(path: Seq<char>, m: int, n: int)
    requires
        0 <= m <= n <= path.len(),
    ensures
        separators(path, m) <= separators(path, n),
    decreases n - m,
{
    if m < n {
        lemma_separators_monotonic(path, m, n - 1);
    }
}

/// Whether two strings hold the same text.
pub fn text_eq(a: &str, b: &str) -> (same: bool)
    ensures
        same == (a@ == b@),
{
    let x: &[u8] = a.as_bytes();
    let y: &[u8] = b.as_bytes();
    proof {
        encode_utf8_decode_utf8(a@);
        encode_utf8_decode_utf8(b@);
    }
    let n: usize = x.len();
    if n != y.len() {
        return false;
    }
    let mut i: usize = 0;
    while i < n
        invariant
            i <= n,
            n == x@.len(),
            n == y@.len(),
            x@ == encode_utf8(a@),
            y@ == encode_utf8(b@),
            forall|k: int| 0 <= k < i ==> x@[k] == y@[k],
        decreases n - i,
    {
        if x[i] != y[i] {
            return false;
        }
        i = i + 1;
    }
    assert(x@ =~= y@);
    true
}

/// The set of the texts in a list of strings.
pub fn text_set_of(list: &[&str]) -> (set: StringHashSet)
    ensures
        set@ == text_set(list@),
{
    let mut set = StringHashSet::new();
    let mut i: usize = 0;
    while i < list.len()
        invariant
            i <= list@.len(),
            set@ == text_set(list@.take(i as int)),
        decreases list@.len() - i,
    {
        set.insert(list[i].to_owned());
        proof {
            lemma_text_set_push(list@, i as int);
        }
        i = i + 1;
    }
    assert(list@.take(i as int) =~= list@);
    set
}

/// The texts among the first `i + 1` strings are those among the first `i`, and that of string `i`.
pub proof fn lemma_text_set_push(list: Seq<&str>, i: int)
    requires
        0 <= i < list.len(),
    ensures
        text_set(list.take(i + 1)) == text_set(list.take(i)).insert(list[i]@),
{
    let shorter = list.take(i);
    let longer = list.take(i + 1);
    assert forall|text: Seq<char>| text_set(longer).contains(text) <==> text_set(shorter).insert(
        list[i]@,
    ).contains(text) by {
        if text_set(longer).contains(text) {
            let k = choose|k: int| 0 <= k < longer.len() && (#[trigger] longer[k])@ == text;
            if k < i {
                assert(shorter[k]@ == text);
            }
        }
        if text_set(shorter).contains(text) {
            let k = choose|k: int| 0 <= k < shorter.len() && (#[trigger] shorter[k])@ == text;
            assert(longer[k]@ == text);
        }
        if text == list[i]@ {
            assert(longer[i]@ == text);
        }
    }
    assert(text_set(longer) =~= text_set(shorter).insert(list[i]@));
}

/// Checks a path and measures it: the depth of a valid path, or why it is refused.
pub fn check_path(path: &str) -> (checked: Result<u8, Error>)
    ensures
        checked is Ok <==> valid(path@),
        checked is Ok ==> checked->Ok_0 == depth(path@),
        checked is Err ==> checked->Err_0 == fault(path@),
{
    let n: usize = path.unicode_len();
    if n == 0 {
        return Err(Error::InvalidPath);
    }
    let mut count: usize = 0;
    let mut after_separator: bool = true;
    let mut too_deep: bool = false;
    let mut i: usize = 0;
    while i < n
        invariant
            0 < n == path@.len(),
            i <= n,
            after_separator == (i == 0 || path@[i - 1] == SEPARATOR),
            i > 0 ==> path@[0] != SEPARATOR,
            forall|k: int| 0 < k < i ==> !(path@[k - 1] == SEPARATOR && #[trigger] path@[k] == SEPARATOR),
            !too_deep ==> count == separators(path@, i as int) && count <= MAX_INDENT,
            too_deep ==> depth(path@) > MAX_INDENT,
        decreases n - i,
    {
        let c: char = path.get_char(i);
        if c == SEPARATOR {
            if after_separator {
                return Err(Error::InvalidPath);
            }
            if !too_deep {
                if count == MAX_INDENT {
                    too_deep = true;
                    proof {
                        lemma_separators_monotonic(path@, i as int + 1, n as int);
                    }
                } else {
                    count = count + 1;
                }
            }
            after_separator = true;
        } else {
            after_separator = false;
        }
        i = i + 1;
    }
    if after_separator {
        return Err(Error::InvalidPath);
    }
    if too_deep {
        return Err(Error::TooDeep);
    }
    Ok(count as u8)
}

} // verus!
