//! File-name arithmetic as `std::path::Path` does it on a final path
//! component: the extension is what follows the last `.`, unless that dot
//! begins the name; the stem is what precedes it.

use vstd::prelude::*;
use crate::text::chars_of;

verus! {

broadcast use vstd::string::group_string_axioms;

/// Index of the last `.` in `s`.
pub open spec fn last_dot(s: Seq<char>) -> Option<int>
    decreases s.len(),
{
    if s.len() == 0 {
        None
    } else if s.last() == '.' {
        Some(s.len() - 1)
    } else {
        last_dot(s.drop_last())
    }
}

/// The dot that splits `name` into stem and extension, if one does.
pub open spec fn split_dot(name: Seq<char>) -> Option<int> {
    if name == ".."@ {
        None
    } else {
        match last_dot(name) {
            Some(i) => if i > 0 {
                Some(i)
            } else {
                None
            },
            None => None,
        }
    }
}

/// `Path::extension` of a file name.
pub open spec fn extension_of(name: Seq<char>) -> Option<Seq<char>> {
    match split_dot(name) {
        Some(i) => Some(name.skip(i + 1)),
        None => None,
    }
}

/// `Path::file_stem` of a (non-empty) file name.
pub open spec fn stem_of(name: Seq<char>) -> Seq<char> {
    match split_dot(name) {
        Some(i) => name.take(i),
        None => name,
    }
}

proof fn lemma_last_dot_bound(s: Seq<char>)
    ensures
        match last_dot(s) {
            Some(i) => 0 <= i < s.len() && s[i] == '.' && forall|j: int|
                i < j < s.len() ==> s[j] != '.',
            None => forall|j: int| 0 <= j < s.len() ==> s[j] != '.',
        },
    decreases s.len(),
{
    if s.len() > 0 && s.last() != '.' {
        lemma_last_dot_bound(s.drop_last());
        assert(forall|j: int| 0 <= j < s.len() - 1 ==> s[j] == s.drop_last()[j]);
    }
}

fn last_dot_index(cs: &Vec<char>) -> (r: Option<usize>)
    ensures
        match r {
            Some(i) => last_dot(cs@) == Some(i as int),
            None => last_dot(cs@) is None,
        },
{
    let mut i = cs.len();
    assert(cs@.take(i as int) =~= cs@);
    while i > 0
        invariant
            i <= cs@.len(),
            last_dot(cs@) == last_dot(cs@.take(i as int)),
        decreases i,
    {
        assert(cs@.take(i as int).drop_last() =~= cs@.take(i - 1));
        if cs[i - 1] == '.' {
            return Some(i - 1);
        }
        i = i - 1;
    }
    None
}

fn split_dot_index(name: &str) -> (r: Option<usize>)
    ensures
        match r {
            Some(i) => split_dot(name@) == Some(i as int),
            None => split_dot(name@) is None,
        },
{
    let cs = chars_of(name);
    proof {
        reveal_strlit("..");
    }
    if cs.len() == 2 && cs[0] == '.' && cs[1] == '.' {
        assert(name@ =~= ".."@);
        return None;
    }
    assert(name@ != ".."@) by {
        if name@ == ".."@ {
            assert(cs@[0] == '.' && cs@[1] == '.');
        }
    }
    match last_dot_index(&cs) {
        Some(i) => if i > 0 {
            Some(i)
        } else {
            None
        },
        None => None,
    }
}

/// `Path::extension` of a file name: `None` where it has none.
pub fn file_extension(name: &str) -> (r: Option<String>)
    ensures
        match r {
            Some(e) => extension_of(name@) == Some(e@),
            None => extension_of(name@) is None,
        },
{
    match split_dot_index(name) {
        Some(i) => {
            let cs = chars_of(name);
            proof {
                lemma_last_dot_bound(name@);
            }
            let e = crate::text::string_of(&cs, i + 1, cs.len());
            assert(e@ =~= name@.skip(i + 1));
            Some(e)
        },
        None => None,
    }
}

/// `Path::file_stem` of a file name.
pub fn file_stem(name: &str) -> (r: String)
    ensures
        r@ == stem_of(name@),
{
    let cs = chars_of(name);
    match split_dot_index(name) {
        Some(i) => {
            proof {
                lemma_last_dot_bound(name@);
            }
            let s = crate::text::string_of(&cs, 0, i);
            assert(s@ =~= name@.take(i as int));
            s
        },
        None => {
            let s = crate::text::string_of(&cs, 0, cs.len());
            assert(s@ =~= name@);
            s
        },
    }
}

} // verus!
