//! The list-aware attribute matching rule.
//!
//! Some HTML attributes are, by convention, whitespace-separated token lists
//! (`class`, `rel`, `headers`, ...).  For those (element, attribute) pairs a
//! value pattern is matched against each token of the attribute's value; for
//! every other pair it is matched against the raw value as a whole.

use vstd::prelude::*;
use crate::dom::NodeData;
use crate::pattern::Pattern;
use crate::strutil::{
    eq_ci, is_ws, is_ws_exec, lemma_split_ws_at, lemma_split_ws_solid, split_ws, str_eq_ci,
};

verus! {

/// The (element, attribute) pairs whose attribute value is a
/// whitespace-separated token list.  Element and attribute names are compared
/// ASCII case-insensitively.
pub open spec fn is_multiple_spec(tag_name: Seq<char>, attr_name: Seq<char>) -> bool {
    ||| eq_ci(attr_name, "class"@)
    ||| eq_ci(attr_name, "accesskey"@)
    ||| eq_ci(attr_name, "dropzone"@)
    ||| ((eq_ci(tag_name, "a"@) || eq_ci(tag_name, "link"@)) && (eq_ci(attr_name, "rel"@)
        || eq_ci(attr_name, "rev"@)))
    ||| ((eq_ci(tag_name, "tr"@) || eq_ci(tag_name, "th"@)) && eq_ci(attr_name, "headers"@))
    ||| (eq_ci(tag_name, "form"@) && eq_ci(attr_name, "accept-charset"@))
    ||| (eq_ci(tag_name, "object"@) && eq_ci(attr_name, "archive"@))
    ||| (eq_ci(tag_name, "area"@) && eq_ci(attr_name, "rel"@))
    ||| (eq_ci(tag_name, "icon"@) && eq_ci(attr_name, "sizes"@))
    ||| (eq_ci(tag_name, "iframe"@) && eq_ci(attr_name, "sandbox"@))
    ||| (eq_ci(tag_name, "output"@) && eq_ci(attr_name, "for"@))
}

/// Decides whether the value of attribute `attr_name` on an element named
/// `tag_name` is treated as a whitespace-separated token list.
pub fn is_multiple(tag_name: &str, attr_name: &str) -> (r: bool)
    ensures
        r == is_multiple_spec(tag_name@, attr_name@),
{
    if str_eq_ci(attr_name, "class") || str_eq_ci(attr_name, "accesskey") || str_eq_ci(
        attr_name,
        "dropzone",
    ) {
        return true;
    }
    if (str_eq_ci(tag_name, "a") || str_eq_ci(tag_name, "link")) && (str_eq_ci(attr_name, "rel")
        || str_eq_ci(attr_name, "rev")) {
        return true;
    }
    if (str_eq_ci(tag_name, "tr") || str_eq_ci(tag_name, "th")) && str_eq_ci(
        attr_name,
        "headers",
    ) {
        return true;
    }
    if str_eq_ci(tag_name, "form") && str_eq_ci(attr_name, "accept-charset") {
        return true;
    }
    if str_eq_ci(tag_name, "object") && str_eq_ci(attr_name, "archive") {
        return true;
    }
    if str_eq_ci(tag_name, "area") && str_eq_ci(attr_name, "rel") {
        return true;
    }
    if str_eq_ci(tag_name, "icon") && str_eq_ci(attr_name, "sizes") {
        return true;
    }
    if str_eq_ci(tag_name, "iframe") && str_eq_ci(attr_name, "sandbox") {
        return true;
    }
    if str_eq_ci(tag_name, "output") && str_eq_ci(attr_name, "for") {
        return true;
    }
    false
}

/// Whether some whitespace-separated part of `haystack` satisfies the
/// pattern `needle`.
pub open spec fn list_matches<V: Pattern>(needle: &V, haystack: Seq<char>) -> bool {
    exists|k: int| 0 <= k < split_ws(haystack).len() && needle.spec_matches(split_ws(haystack)[k])
}

/// Matches `needle` against each whitespace-separated part of `haystack` in
/// turn; true as soon as one part satisfies it.
pub fn match_list_attr<V: Pattern>(needle: &V, haystack: &str) -> (r: bool)
    ensures
        r == list_matches(needle, haystack@),
{
    let len = haystack.unicode_len();
    let ghost full = haystack@;
    let ghost done: Seq<Seq<char>> = Seq::empty();
    let mut done = Ghost(done);
    let mut start: usize = 0;
    let mut i: usize = 0;
    proof {
        assert(full.subrange(0, len as int) =~= full);
        assert(done@ + split_ws(full) =~= split_ws(full));
    }
    while i < len
        invariant
            len == full.len(),
            haystack@ == full,
            start <= i <= len,
            forall|j: int| start <= j < i ==> !is_ws(full[j]),
            split_ws(full) == done@ + split_ws(full.subrange(start as int, len as int)),
            forall|k: int| 0 <= k < done@.len() ==> !needle.spec_matches(done@[k]),
        decreases len - i,
    {
        let c = haystack.get_char(i);
        if is_ws_exec(c) {
            let part = haystack.substring_char(start, i);
            proof {
                let tail = full.subrange(start as int, len as int);
                lemma_split_ws_at(tail, i - start);
                assert(tail.subrange(0, i - start) =~= full.subrange(start as int, i as int));
                assert(tail.subrange(i - start + 1, tail.len() as int) =~= full.subrange(
                    i + 1,
                    len as int,
                ));
            }
            if needle.matches(part) {
                proof {
                    let parts = split_ws(full);
                    assert(parts[done@.len() as int] == part@);
                    assert(needle.spec_matches(parts[done@.len() as int]));
                    assert(0 <= done@.len() < parts.len());
                }
                return true;
            }
            proof {
                done@ = done@ + seq![full.subrange(start as int, i as int)];
            }
            start = i + 1;
        }
        i = i + 1;
    }
    let part = haystack.substring_char(start, len);
    proof {
        let tail = full.subrange(start as int, len as int);
        lemma_split_ws_solid(tail);
    }
    let r = needle.matches(part);
    proof {
        let parts = split_ws(full);
        if r {
            assert(parts[done@.len() as int] == part@);
            assert(needle.spec_matches(parts[done@.len() as int]));
            assert(0 <= done@.len() < parts.len());
        } else {
            assert(forall|k: int|
                0 <= k < parts.len() ==> !needle.spec_matches(
                    #[trigger] parts[k],
                )) by {
                assert(parts =~= done@ + seq![part@]);
            }
        }
    }
    r
}

/// Whether the attribute (`attr_name`, `attr_value`) of an element named
/// `tag_name` satisfies the key pattern and, under the list-aware rule, the
/// value pattern.
pub open spec fn attr_pair_matches<K: Pattern, V: Pattern>(
    key: &K,
    value: &V,
    tag_name: Seq<char>,
    attr_name: Seq<char>,
    attr_value: Seq<char>,
) -> bool {
    &&& key.spec_matches(attr_name)
    &&& if is_multiple_spec(tag_name, attr_name) {
        list_matches(value, attr_value)
    } else {
        value.spec_matches(attr_value)
    }
}

/// Whether `data` is an element carrying at least one attribute that
/// satisfies `key` and `value` under the list-aware rule.
pub open spec fn list_aware_match_spec<K: Pattern, V: Pattern>(
    key: &K,
    value: &V,
    data: NodeData,
) -> bool {
    match data {
        NodeData::Element { name, attrs } => exists|j: int|
            0 <= j < attrs@.len() && attr_pair_matches(
                key,
                value,
                name@,
                attrs@[j].name@,
                attrs@[j].value@,
            ),
        _ => false,
    }
}

/// Decides [`list_aware_match_spec`]: scans the attribute bag for an entry
/// whose name satisfies `attr_name` and whose value satisfies `attr_value`,
/// tokenizing the value first when the list-aware rule applies.
#[verifier::loop_isolation(false)]
pub fn list_aware_match<K: Pattern, V: Pattern>(
    data: &NodeData,
    attr_name: &K,
    attr_value: &V,
) -> (r: bool)
    ensures
        r == list_aware_match_spec(attr_name, attr_value, *data),
{
    match data {
        NodeData::Element { name, attrs } => {
            let n = attrs.len();
            let mut j: usize = 0;
            while j < n
                invariant
                    n == attrs@.len(),
                    j <= n,
                    forall|k: int|
                        0 <= k < j ==> !attr_pair_matches(
                            attr_name,
                            attr_value,
                            name@,
                            attrs@[k].name@,
                            attrs@[k].value@,
                        ),
                decreases n - j,
            {
                let a = &attrs[j];
                if attr_name.matches(a.name.as_str()) {
                    let hit = if is_multiple(name.as_str(), a.name.as_str()) {
                        match_list_attr(attr_value, a.value.as_str())
                    } else {
                        attr_value.matches(a.value.as_str())
                    };
                    if hit {
                        proof {
                            assert(attr_pair_matches(
                                attr_name,
                                attr_value,
                                name@,
                                attrs@[j as int].name@,
                                attrs@[j as int].value@,
                            ));
                        }
                        return true;
                    }
                }
                j = j + 1;
            }
            false
        },
        _ => false,
    }
}

} // verus!
