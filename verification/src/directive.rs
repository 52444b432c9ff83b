use vstd::prelude::*;

use crate::map::str_eq;
use crate::text::{lower_case_first_letter, spec_lower_case_first_letter};

verus! {

/// The part of `s` after the last `::` separator, the separators found from
/// the left as `str::split` finds them; `start` is where the current part
/// began and `i` how far the search has come.
pub open spec fn segment_from(s: Seq<char>, start: int, i: int) -> Seq<char>
    decreases s.len() - i,
{
    if i + 1 < s.len() && s[i] == ':' && s[i + 1] == ':' {
        segment_from(s, i + 2, i + 2)
    } else if i < s.len() {
        segment_from(s, start, i + 1)
    } else {
        s.subrange(start, s.len() as int)
    }
}

/// The last part of a path whose parts are separated by `::`.
pub open spec fn last_segment(s: Seq<char>) -> Seq<char> {
    segment_from(s, 0, 0)
}

/// The last part of a path whose parts are separated by `::`, as the last
/// item that `str::split("::")` gives.
pub fn last_path_segment(path: &str) -> (r: String)
    ensures
        r@ == last_segment(path@),
{
    let n = path.unicode_len();
    let mut start: usize = 0;
    let mut i: usize = 0;
    while i < n
        invariant
            n == path@.len(),
            start <= i <= n,
            segment_from(path@, 0, 0) == segment_from(path@, start as int, i as int),
        decreases n - i,
    {
        if i + 1 < n && path.get_char(i) == ':' && path.get_char(i + 1) == ':' {
            i = i + 2;
            start = i;
        } else {
            i = i + 1;
        }
    }
    String::from_str(path.substring_char(start, n))
}

/// The name of the directive that a type is read from: the last part of the
/// type's path, its first letter in lower case.
pub fn directive_name(type_path: &str) -> (r: String)
    ensures
        r@ == spec_lower_case_first_letter(last_segment(type_path@)),
{
    let last = last_path_segment(type_path);
    lower_case_first_letter(last.as_str())
}

/// The directive that a field or a type is read from: the first one with
/// the name sought.
pub fn first_directive_named(names: &Vec<String>, name: &str) -> (r: Option<usize>)
    ensures
        r matches Some(i) ==> i < names.len() && names@[i as int]@ == name@ && forall|j: int|
            0 <= j < i ==> names@[j]@ != name@,
        r is None ==> forall|j: int| 0 <= j < names.len() ==> names@[j]@ != name@,
{
    let mut i: usize = 0;
    while i < names.len()
        invariant
            i <= names.len(),
            forall|j: int| 0 <= j < i ==> names@[j]@ != name@,
        decreases names.len() - i,
    {
        if str_eq(names[i].as_str(), name) {
            return Some(i);
        }
        i = i + 1;
    }
    None
}

/// The directive that the schema is read from: the last one with the name
/// sought, a later one overriding an earlier one.
pub fn last_directive_named(names: &Vec<String>, name: &str) -> (r: Option<usize>)
    ensures
        r matches Some(i) ==> i < names.len() && names@[i as int]@ == name@ && forall|j: int|
            i < j < names.len() ==> names@[j]@ != name@,
        r is None ==> forall|j: int| 0 <= j < names.len() ==> names@[j]@ != name@,
{
    let mut found: Option<usize> = None;
    let mut i: usize = 0;
    while i < names.len()
        invariant
            i <= names.len(),
            found matches Some(k) ==> k < i && names@[k as int]@ == name@ && forall|j: int|
                k < j < i ==> names@[j]@ != name@,
            found is None ==> forall|j: int| 0 <= j < i ==> names@[j]@ != name@,
        decreases names.len() - i,
    {
        if str_eq(names[i].as_str(), name) {
            found = Some(i);
        }
        i = i + 1;
    }
    found
}

} // verus!
