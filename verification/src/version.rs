//! Version branches: `v1`, `v2`, ... and which of them is the latest.
use crate::outside::{regex_group, regex_group_result};
use crate::text::{chars_of, parse_unsigned, parse_unsigned_chars, texts};
use vstd::prelude::*;

verus! {

/// The pattern that a version branch's name matches.
pub open spec fn version_pattern() -> Seq<char> {
    "^v(\\d+)$"@
}

/// The number of a version branch: `None` for a name that is no version
/// branch, and 0 where the digits do not fit in a `u32`.
pub open spec fn version_number(name: Seq<char>) -> Option<nat> {
    match regex_group_result(version_pattern(), name, 1) {
        Some(g) => Some(
            match parse_unsigned(g, 4294967295) {
                Some(n) => n,
                None => 0,
            },
        ),
        None => None,
    }
}

/// Going through the names in order: the highest version number seen and
/// the position of the first name that carries it (numbers above 0 only).
pub open spec fn latest_scan(names: Seq<Seq<char>>) -> (nat, Option<int>)
    decreases names.len(),
{
    if names.len() == 0 {
        (0, None)
    } else {
        let prev = latest_scan(names.drop_last());
        match version_number(names.last()) {
            Some(n) => if n > prev.0 {
                (n, Some(names.len() - 1))
            } else {
                prev
            },
            None => prev,
        }
    }
}

/// The latest version branch among `names`.
pub open spec fn latest_version(names: Seq<Seq<char>>) -> Option<Seq<char>> {
    match latest_scan(names).1 {
        Some(i) => Some(names[i]),
        None => None,
    }
}

/// The number of a version branch's name.
pub fn version_number_of(name: &str) -> (r: Option<u32>)
    ensures
        match r {
            Some(n) => version_number(name@) == Some(n as nat),
            None => version_number(name@) is None,
        },
{
    match regex_group("^v(\\d+)$", name, 1) {
        Some(g) => match parse_unsigned_chars(&chars_of(g.as_str()), 4294967295) {
            Some(n) => Some(n as u32),
            None => Some(0),
        },
        None => None,
    }
}

/// The latest version branch: the one with the highest number, the first
/// of them where several carry it.
pub fn get_latest_version(branches: &Vec<String>) -> (r: Option<String>)
    ensures
        match r {
            Some(v) => latest_version(strings_of(branches@)) == Some(v@),
            None => latest_version(strings_of(branches@)) is None,
        },
{
    let ghost names = strings_of(branches@);
    let mut max_version: u32 = 0;
    let mut latest: Option<usize> = None;
    let mut i: usize = 0;
    while i < branches.len()
        invariant
            i <= branches.len(),
            names == strings_of(branches@),
            latest_scan(names.take(i as int)).0 == max_version as nat,
            latest_scan(names.take(i as int)).1 == match latest {
                Some(k) => Some(k as int),
                None => None::<int>,
            },
            latest matches Some(k) ==> k < i,
        decreases branches.len() - i,
    {
        let ghost t = names.take(i + 1);
        assert(t.drop_last() =~= names.take(i as int));
        assert(t.last() == branches@[i as int]@);
        if let Some(num) = version_number_of(branches[i].as_str()) {
            if num > max_version {
                max_version = num;
                latest = Some(i);
            }
        }
        i = i + 1;
    }
    assert(names.take(branches.len() as int) =~= names);
    match latest {
        Some(k) => Some(branches[k].clone()),
        None => None,
    }
}

/// The texts of a sequence of strings.
pub open spec fn strings_of(v: Seq<String>) -> Seq<Seq<char>> {
    v.map_values(|s: String| s@)
}

/// The latest version carries the highest number of all version branches,
/// and no version branch before it carries that number.
pub proof fn law_latest_is_highest(names: Seq<Seq<char>>)
    ensures
        forall|i: int|
            0 <= i < names.len() && #[trigger] version_number(names[i]) is Some
                ==> version_number(names[i])->0 <= latest_scan(names).0,
        match latest_scan(names).1 {
            Some(k) => 0 <= k < names.len() && version_number(names[k]) == Some(
                latest_scan(names).0,
            ) && latest_scan(names).0 > 0 && forall|j: int|
                0 <= j < k ==> #[trigger] version_number(names[j]) != Some(latest_scan(names).0),
            None => latest_scan(names).0 == 0,
        },
    decreases names.len(),
{
    if names.len() > 0 {
        let prev = names.drop_last();
        law_latest_is_highest(prev);
        assert forall|i: int| 0 <= i < names.len() - 1 implies names[i] == prev[i] by {}
        assert forall|i: int|
            0 <= i < names.len() && #[trigger] version_number(names[i]) is Some implies version_number(
                names[i],
            )->0 <= latest_scan(names).0 by {
            if i < names.len() - 1 {
                assert(names[i] == prev[i]);
            }
        }
        match latest_scan(names).1 {
            Some(k) => {
                if k < names.len() - 1 {
                    assert forall|j: int| 0 <= j < k implies #[trigger] version_number(names[j])
                        != Some(latest_scan(names).0) by {
                        assert(names[j] == prev[j]);
                    }
                } else {
                    assert forall|j: int| 0 <= j < k implies #[trigger] version_number(names[j])
                        != Some(latest_scan(names).0) by {
                        assert(names[j] == prev[j]);
                        if version_number(prev[j]) is Some {
                            assert(version_number(prev[j])->0 <= latest_scan(prev).0);
                        }
                    }
                }
            },
            None => {},
        }
    }
}

} // verus!
