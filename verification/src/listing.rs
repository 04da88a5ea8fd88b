//! Which files of a directory are images: those whose name has the wanted
//! extension, whatever the case of its letters.

use vstd::prelude::*;
use vstd::string::*;

verus! {

/// The lowercase form of a text, as the standard library gives it.
pub uninterp spec fn lowercased(s: Seq<char>) -> Seq<char>;

/// The index of the last point in `name`, or -1 where it holds none.
pub open spec fn last_point(name: Seq<char>) -> int
    decreases name.len(),
{
    if name.len() == 0 {
        -1
    } else if name.last() == '.' {
        name.len() - 1
    } else {
        last_point(name.drop_last())
    }
}

/// The extension of the file name `name`: what follows its last point. A
/// name has none where it holds no point, where its only point begins it,
/// and where it is the name `..` of the directory above.
pub open spec fn extension(name: Seq<char>) -> Option<Seq<char>> {
    let d = last_point(name);
    if d <= 0 || name == seq!['.', '.'] {
        None
    } else {
        Some(name.skip(d + 1))
    }
}

/// Whether the file name `name` has the extension `wanted`, whatever the
/// case of its letters: the two are the same once both are in lowercase.
pub open spec fn has_extension(name: Seq<char>, wanted: Seq<char>) -> bool {
    match extension(name) {
        Some(found) => lowercased(found) == lowercased(wanted),
        None => false,
    }
}

/// What an extension that was found or not holds.
pub open spec fn extension_found(r: Option<&str>) -> Option<Seq<char>> {
    match r {
        Some(e) => Some(e@),
        None => None,
    }
}

proof fn lemma_last_point(name: Seq<char>, d: int)
    requires
        -1 <= d < name.len(),
        forall|j: int| d < j < name.len() ==> #[trigger] name[j] != '.',
        d >= 0 ==> name[d] == '.',
    ensures
        last_point(name) == d,
    decreases name.len() - d,
{
    if name.len() > 0 && d < name.len() - 1 {
        lemma_last_point(name.drop_last(), d);
    }
}

/// Calls `str::to_lowercase` of the standard library. Nothing is claimed of
/// the result but that it is the lowercase form of the text, which depends
/// on the text alone.
#[verifier::external_body]
pub(crate) fn to_lowercase(s: &str) -> (r: String)
    ensures
        r@ == lowercased(s@),
{
    s.to_lowercase()
}

/// The extension of the file name `name`, if it has one.
pub fn extension_of(name: &str) -> (r: Option<&str>)
    ensures
        extension_found(r) == extension(name@),
{
    let n: usize = name.unicode_len();
    let mut i: usize = n;
    while i > 0 && name.get_char(i - 1) != '.'
        invariant
            i <= n == name@.len(),
            forall|j: int| i <= j < n ==> #[trigger] name@[j] != '.',
        decreases i,
    {
        i -= 1;
    }
    proof {
        lemma_last_point(name@, i - 1);
    }
    if i <= 1 {
        return None;
    }
    if n == 2 && name.get_char(0) == '.' {
        assert(name@ =~= seq!['.', '.']);
        return None;
    }
    assert(name@ != seq!['.', '.']) by {
        if name@ == seq!['.', '.'] {
            assert(name@.len() == 2);
            assert(name@[0] == '.');
        }
    }
    let found: &str = name.substring_char(i, n);
    assert(found@ =~= name@.skip(i as int));
    Some(found)
}

/// Whether two texts are the same, character by character.
pub fn same_text(a: &str, b: &str) -> (r: bool)
    ensures
        r == (a@ == b@),
{
    let n: usize = a.unicode_len();
    if n != b.unicode_len() {
        return false;
    }
    let mut k: usize = 0;
    while k < n
        invariant
            k <= n == a@.len() == b@.len(),
            forall|j: int| 0 <= j < k ==> a@[j] == b@[j],
        decreases n - k,
    {
        if a.get_char(k) != b.get_char(k) {
            return false;
        }
        k += 1;
    }
    assert(a@ =~= b@);
    true
}

/// Whether the file name `name` has the extension `wanted`, whatever the
/// case of its letters.
pub fn matches_extension(name: &str, wanted: &str) -> (b: bool)
    ensures
        b == has_extension(name@, wanted@),
{
    match extension_of(name) {
        Some(found) => {
            let found_low: String = to_lowercase(found);
            let wanted_low: String = to_lowercase(wanted);
            same_text(found_low.as_str(), wanted_low.as_str())
        },
        None => false,
    }
}

} // verus!
