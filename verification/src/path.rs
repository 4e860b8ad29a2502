//! The name of a region's file, `r.<x>.<z>.linear`, written and read.
//!
//! Of a path, the file name is what follows the last `/`, its parts are
//! what the dots separate, and the second and third part are the
//! coordinates, each parsed as Rust parses a `usize`: an optional `+`, then
//! decimal digits only.

use crate::decimal::{
    append_decimal, decimal, is_digit, lemma_decimal, lemma_decimal_parses, parse_digits,
    parse_usize,
};
use crate::error::LinearError;
use crate::region::Region;
use vstd::prelude::*;
use vstd::string::StringExecFns;

verus! {

/// Where the file name begins in a path: after the last `/`, or at 0.
pub open spec fn name_start(path: Seq<char>) -> int
    decreases path.len(),
{
    if path.len() == 0 {
        0
    } else if path.last() == '/' {
        path.len() as int
    } else {
        name_start(path.drop_last())
    }
}

/// The place of the first dot of `s` at or after `from`, or the length of
/// `s` where there is none.
pub open spec fn next_dot(s: Seq<char>, from: int) -> int
    decreases s.len() - from,
{
    if from < 0 || from >= s.len() {
        s.len() as int
    } else if s[from] == '.' {
        from
    } else {
        next_dot(s, from + 1)
    }
}

/// The coordinates that a path names: the second and the third of the
/// parts that dots separate in its file name.
pub open spec fn path_coords(path: Seq<char>) -> Option<(usize, usize)> {
    let first: int = next_dot(path, name_start(path));
    let second: int = next_dot(path, first + 1);
    let third: int = next_dot(path, second + 1);
    if first < path.len() && second < path.len() {
        match (
            parse_usize(path.subrange(first + 1, second)),
            parse_usize(path.subrange(second + 1, third)),
        ) {
            (Some(x), Some(z)) => Some((x, z)),
            _ => None,
        }
    } else {
        None
    }
}

/// The name of the file of the region at the given coordinates.
pub open spec fn file_name(region_x: nat, region_z: nat) -> Seq<char> {
    "r."@ + decimal(region_x) + "."@ + decimal(region_z) + ".linear"@
}

/// Where what follows `prefix` holds no `/`, and `prefix` is empty or ends
/// in one, the file name begins right after `prefix`.
proof fn lemma_name_start_after(prefix: Seq<char>, rest: Seq<char>)
    requires
        prefix.len() == 0 || prefix.last() == '/',
        forall|i: int| 0 <= i < rest.len() ==> rest[i] != '/',
    ensures
        name_start(prefix + rest) == prefix.len(),
    decreases rest.len(),
{
    if rest.len() == 0 {
        assert(prefix + rest =~= prefix);
    } else {
        assert((prefix + rest).drop_last() =~= prefix + rest.drop_last());
        lemma_name_start_after(prefix, rest.drop_last());
    }
}

/// Where no dot lies in `from..at` and one lies at `at`, or `s` ends
/// there, the next dot after `from` is at `at`.
proof fn lemma_next_dot_at(s: Seq<char>, from: int, at: int)
    requires
        0 <= from <= at <= s.len(),
        forall|i: int| from <= i < at ==> s[i] != '.',
        at < s.len() ==> s[at] == '.',
    ensures
        next_dot(s, from) == at,
    decreases at - from,
{
    if from < at {
        lemma_next_dot_at(s, from + 1, at);
    }
}

/// The name written for a region's file, behind any directory, is read
/// back as the region's coordinates.
pub proof fn lemma_file_name_round_trip(dir: Seq<char>, region_x: usize, region_z: usize)
    requires
        dir.len() == 0 || dir.last() == '/',
    ensures
        path_coords(dir + file_name(region_x as nat, region_z as nat)) == Some(
            (region_x, region_z),
        ),
{
    reveal_strlit("r.");
    reveal_strlit(".");
    reveal_strlit(".linear");
    let dx = decimal(region_x as nat);
    let dz = decimal(region_z as nat);
    lemma_decimal(region_x as nat);
    lemma_decimal(region_z as nat);
    lemma_decimal_parses(region_x);
    lemma_decimal_parses(region_z);
    let name = file_name(region_x as nat, region_z as nat);
    let path = dir + name;
    let a: int = dir.len() as int;
    let first: int = a + 1;
    let second: int = first + 1 + dx.len();
    let third: int = second + 1 + dz.len();
    assert(name.len() == 2 + dx.len() + 1 + dz.len() + 7);
    assert(path.len() == a + name.len());
    assert(path[a] == 'r');
    assert(path[first] == '.');
    assert forall|i: int| first + 1 <= i < second implies path[i] == dx[i - first - 1] by {}
    assert(path[second] == '.');
    assert forall|i: int| second + 1 <= i < third implies path[i] == dz[i - second - 1] by {}
    assert(path[third] == '.');
    assert forall|i: int| 0 <= i < name.len() implies name[i] != '/' by {
        assert(name[i] == path[a + i]);
        if 2 <= i < 2 + dx.len() {
            assert(is_digit(dx[i - 2]));
        } else if 3 + dx.len() <= i < 3 + dx.len() + dz.len() {
            assert(is_digit(dz[i - 3 - dx.len()]));
        }
    }
    lemma_name_start_after(dir, name);
    lemma_next_dot_at(path, a, first);
    assert forall|i: int| first + 1 <= i < second implies path[i] != '.' by {
        assert(is_digit(dx[i - first - 1]));
    }
    lemma_next_dot_at(path, first + 1, second);
    assert forall|i: int| second + 1 <= i < third implies path[i] != '.' by {
        assert(is_digit(dz[i - second - 1]));
    }
    lemma_next_dot_at(path, second + 1, third);
    assert(path.subrange(first + 1, second) =~= dx);
    assert(path.subrange(second + 1, third) =~= dz);
}

/// Finds the first dot at or after `from`.
fn find_dot(chars: &Vec<char>, from: usize) -> (at: usize)
    requires
        from <= chars@.len(),
    ensures
        at == next_dot(chars@, from as int),
        from <= at <= chars@.len(),
{
    let mut i: usize = from;
    while i < chars.len() && chars[i] != '.'
        invariant
            from <= i <= chars@.len(),
            next_dot(chars@, from as int) == next_dot(chars@, i as int),
        decreases chars@.len() - i,
    {
        i += 1;
    }
    i
}

/// Finds where the file name begins.
fn find_name_start(chars: &Vec<char>) -> (at: usize)
    ensures
        at == name_start(chars@),
        at <= chars@.len(),
{
    let mut i: usize = chars.len();
    proof {
        assert(chars@.take(i as int) =~= chars@);
    }
    while i > 0 && chars[i - 1] != '/'
        invariant
            i <= chars@.len(),
            name_start(chars@) == name_start(chars@.take(i as int)),
        decreases i,
    {
        proof {
            assert(chars@.take(i as int).drop_last() =~= chars@.take(i - 1));
        }
        i -= 1;
    }
    i
}

/// Reads the coordinates of a region off the path of its file.
///
/// Fails with `PathFormat` exactly when the file name has fewer than three
/// parts or the second or third is no `usize`.
pub fn parse_region_path(path: &str) -> (r: Result<(usize, usize), LinearError>)
    ensures
        match r {
            Ok(coords) => path_coords(path@) == Some(coords),
            Err(e) => path_coords(path@).is_none() && e == LinearError::PathFormat,
        },
{
    let mut chars: Vec<char> = Vec::new();
    for c in it: path.chars()
        invariant
            it.seq() == path@,
            chars@ == it.seq().take(it.index() as int),
    {
        chars.push(c);
    }
    assert(chars@ =~= path@);
    let start: usize = find_name_start(&chars);
    let first: usize = find_dot(&chars, start);
    if first >= chars.len() {
        return Err(LinearError::PathFormat);
    }
    let second: usize = find_dot(&chars, first + 1);
    if second >= chars.len() {
        return Err(LinearError::PathFormat);
    }
    let third: usize = find_dot(&chars, second + 1);
    let region_x: usize = match parse_digits(&chars, first + 1, second) {
        Some(v) => v,
        None => {
            return Err(LinearError::PathFormat);
        },
    };
    let region_z: usize = match parse_digits(&chars, second + 1, third) {
        Some(v) => v,
        None => {
            return Err(LinearError::PathFormat);
        },
    };
    Ok((region_x, region_z))
}

/// The name of the file of the region at the given coordinates:
/// `r.<region_x>.<region_z>.linear`.
pub fn region_file_name(region_x: usize, region_z: usize) -> (name: String)
    ensures
        name@ == file_name(region_x as nat, region_z as nat),
{
    let mut name = String::from_str("r.");
    append_decimal(&mut name, region_x);
    name.append(".");
    append_decimal(&mut name, region_z);
    name.append(".linear");
    name
}

impl Region {
    /// The name of the file that holds this region.
    pub fn file_name(&self) -> (name: String)
        ensures
            name@ == file_name(self.region_x as nat, self.region_z as nat),
    {
        region_file_name(self.region_x, self.region_z)
    }
}

} // verus!
