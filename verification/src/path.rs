use crate::platform::Platform;
use crate::text::{chars_of, string_of};
use vstd::prelude::*;

verus! {

/// Whether `c` is one of the letters `a` to `z` or `A` to `Z`.
pub open spec fn is_drive_letter(c: char) -> bool {
    let n = c as u32;
    0x41 <= n <= 0x5A || 0x61 <= n <= 0x7A
}

/// The length of the drive designator that opens `path`: on `Windows` a
/// letter and a colon, two characters; nothing anywhere else.
pub open spec fn drive_len(platform: Platform, path: Seq<char>) -> nat {
    if platform == Platform::Windows && path.len() >= 2 && is_drive_letter(path[0]) && path[1]
        == ':' {
        2
    } else {
        0
    }
}

/// `s` without the separators that end it.
pub open spec fn without_trailing_separators(platform: Platform, s: Seq<char>) -> Seq<char>
    decreases s.len(),
{
    if s.len() > 0 && platform.separates(s.last()) {
        without_trailing_separators(platform, s.drop_last())
    } else {
        s
    }
}

/// The longest run of characters at the end of `s` that holds no separator.
pub open spec fn last_component(platform: Platform, s: Seq<char>) -> Seq<char>
    decreases s.len(),
{
    if s.len() == 0 || platform.separates(s.last()) {
        Seq::empty()
    } else {
        last_component(platform, s.drop_last()).push(s.last())
    }
}

/// What is left of `path` after its drive designator, without the separators
/// that end it. It is empty exactly when the path names no file: an empty
/// path, a bare root, a bare drive.
pub open spec fn stem(platform: Platform, path: Seq<char>) -> Seq<char> {
    without_trailing_separators(platform, path.skip(drive_len(platform, path) as int))
}

/// The final component of `path`, if it has one.
pub open spec fn file_name(platform: Platform, path: Seq<char>) -> Option<Seq<char>> {
    let stem = stem(platform, path);
    if stem.len() == 0 {
        None
    } else {
        Some(last_component(platform, stem))
    }
}

/// The directory that holds the final component of `path`, if the path has a
/// final component: the drive designator, then what stands before the final
/// component, without the separators that end it unless it is made of
/// separators alone (a root). It is empty for a bare file name, which lies in
/// the current directory.
pub open spec fn parent(platform: Platform, path: Seq<char>) -> Option<Seq<char>> {
    let stem = stem(platform, path);
    if stem.len() == 0 {
        None
    } else {
        let dir = stem.take(stem.len() - last_component(platform, stem).len());
        let bare = without_trailing_separators(platform, dir);
        Some(
            path.take(drive_len(platform, path) as int) + if bare.len() == 0 {
                dir
            } else {
                bare
            },
        )
    }
}

/// Tests a character for a drive letter.
fn char_is_drive_letter(c: char) -> (b: bool)
    ensures
        b == is_drive_letter(c),
{
    let n: u32 = c as u32;
    (0x41 <= n && n <= 0x5A) || (0x61 <= n && n <= 0x7A)
}

/// The first index of `v[from..end]` after which only separators follow.
fn skip_separators_back(platform: Platform, v: &Vec<char>, from: usize, end: usize) -> (k: usize)
    requires
        from <= end <= v.len(),
    ensures
        from <= k <= end,
        v@.subrange(from as int, k as int) == without_trailing_separators(
            platform,
            v@.subrange(from as int, end as int),
        ),
{
    let ghost whole = v@.subrange(from as int, end as int);
    let mut k: usize = end;
    proof {
        assert(whole.take(k - from) =~= whole);
    }
    while k > from && platform.is_separator(v[k - 1])
        invariant
            from <= k <= end <= v.len(),
            whole == v@.subrange(from as int, end as int),
            without_trailing_separators(platform, whole) == without_trailing_separators(
                platform,
                whole.take(k - from),
            ),
        decreases k,
    {
        proof {
            assert(whole.take(k - from).drop_last() =~= whole.take(k - from - 1));
        }
        k -= 1;
    }
    proof {
        assert(whole.take(k - from) =~= v@.subrange(from as int, k as int));
    }
    k
}

/// Where the parent and the final component of `path` lie in it: the end of
/// the parent, then the bounds of the final component.
fn path_bounds(platform: Platform, path: &Vec<char>) -> (b: Option<(usize, usize, usize)>)
    ensures
        match b {
            None => file_name(platform, path@) is None && parent(platform, path@) is None,
            Some((dir_end, name_start, name_end)) => {
                &&& dir_end <= name_start <= name_end <= path.len()
                &&& file_name(platform, path@) == Some(
                    path@.subrange(name_start as int, name_end as int),
                )
                &&& parent(platform, path@) == Some(path@.take(dir_end as int))
            },
        },
{
    let drive: usize = match platform {
        Platform::Windows => if path.len() >= 2 && char_is_drive_letter(path[0]) && path[1]
            == ':' {
            2
        } else {
            0
        },
        Platform::Unix => 0,
    };
    assert(drive == drive_len(platform, path@));
    proof {
        assert(path@.skip(drive as int) =~= path@.subrange(drive as int, path.len() as int));
    }
    let name_end = skip_separators_back(platform, path, drive, path.len());
    if name_end == drive {
        return None;
    }
    let ghost stem = path@.subrange(drive as int, name_end as int);
    let mut name_start: usize = name_end;
    proof {
        assert(stem.take(name_start - drive) =~= stem);
        assert(stem.subrange(name_start - drive, name_end - drive) =~= Seq::<char>::empty());
        assert(last_component(platform, stem) =~= last_component(platform, stem) + Seq::<
            char,
        >::empty());
    }
    while name_start > drive && !platform.is_separator(path[name_start - 1])
        invariant
            drive <= name_start <= name_end <= path.len(),
            stem == path@.subrange(drive as int, name_end as int),
            last_component(platform, stem) == last_component(
                platform,
                stem.take(name_start - drive),
            ) + stem.subrange(name_start - drive, name_end - drive),
        decreases name_start,
    {
        proof {
            let head = stem.take(name_start - drive);
            assert(head.drop_last() =~= stem.take(name_start - drive - 1));
            assert(last_component(platform, head.drop_last()).push(head.last()) + stem.subrange(
                name_start - drive,
                name_end - drive,
            ) =~= last_component(platform, head.drop_last()) + stem.subrange(
                name_start - drive - 1,
                name_end - drive,
            ));
        }
        name_start -= 1;
    }
    proof {
        assert(last_component(platform, stem.take(name_start - drive)) =~= Seq::<char>::empty());
        assert(last_component(platform, stem) =~= stem.subrange(
            name_start - drive,
            name_end - drive,
        ));
        assert(stem.subrange(name_start - drive, name_end - drive) =~= path@.subrange(
            name_start as int,
            name_end as int,
        ));
        assert(stem.take(stem.len() - last_component(platform, stem).len()) =~= path@.subrange(
            drive as int,
            name_start as int,
        ));
    }
    let bare_end = skip_separators_back(platform, path, drive, name_start);
    let dir_end = if bare_end == drive {
        name_start
    } else {
        bare_end
    };
    proof {
        assert(path@.take(drive as int) + path@.subrange(drive as int, dir_end as int)
            =~= path@.take(dir_end as int));
    }
    Some((dir_end, name_start, name_end))
}

/// The final component of `path`: `None` when the path names no file. A
/// final component is not empty and holds no separator.
pub fn file_name_of(platform: Platform, path: &str) -> (name: Option<String>)
    ensures
        match name {
            Some(name) => file_name(platform, path@) == Some(name@),
            None => file_name(platform, path@) is None,
        },
        name matches Some(name) ==> name@.len() > 0 && forall|k: int|
            0 <= k < name@.len() ==> !platform.separates(name@[k]),
{
    proof {
        lemma_path_takes_apart(platform, path@);
    }
    let chars = chars_of(path);
    match path_bounds(platform, &chars) {
        Some((_, name_start, name_end)) => Some(string_of(&chars, name_start, name_end)),
        None => None,
    }
}

/// The directory that holds the final component of `path`: `None` when the
/// path names no file, and so has no parent to resolve. A parent begins the
/// path.
pub fn parent_of(platform: Platform, path: &str) -> (dir: Option<String>)
    ensures
        match dir {
            Some(dir) => parent(platform, path@) == Some(dir@),
            None => parent(platform, path@) is None,
        },
        dir is Some <==> file_name(platform, path@) is Some,
        dir matches Some(dir) ==> dir@.is_prefix_of(path@),
{
    proof {
        lemma_path_takes_apart(platform, path@);
    }
    let chars = chars_of(path);
    match path_bounds(platform, &chars) {
        Some((dir_end, _, _)) => {
            proof {
                assert(chars@.take(dir_end as int) =~= chars@.subrange(0, dir_end as int));
            }
            Some(string_of(&chars, 0, dir_end))
        },
        None => None,
    }
}

/// What `without_trailing_separators` leaves is the beginning of `s`, does
/// not end with a separator, and is followed by separators alone.
proof fn lemma_without_trailing_separators(platform: Platform, s: Seq<char>)
    ensures
        without_trailing_separators(platform, s).len() <= s.len(),
        without_trailing_separators(platform, s) == s.take(
            without_trailing_separators(platform, s).len() as int,
        ),
        without_trailing_separators(platform, s).len() > 0 ==> !platform.separates(
            without_trailing_separators(platform, s).last(),
        ),
        forall|k: int|
            without_trailing_separators(platform, s).len() <= k < s.len() ==> platform.separates(
                s[k],
            ),
    decreases s.len(),
{
    if s.len() > 0 && platform.separates(s.last()) {
        let rest = s.drop_last();
        lemma_without_trailing_separators(platform, rest);
        let kept = without_trailing_separators(platform, rest).len() as int;
        assert(rest.take(kept) =~= s.take(kept));
        assert forall|k: int| kept <= k < s.len() implies platform.separates(s[k]) by {
            if k < rest.len() {
                assert(rest[k] == s[k]);
            }
        }
    } else {
        assert(s.take(s.len() as int) =~= s);
    }
}

/// The last component is the end of `s`, holds no separator, and follows a
/// separator or begins `s`.
proof fn lemma_last_component(platform: Platform, s: Seq<char>)
    ensures
        last_component(platform, s).len() <= s.len(),
        last_component(platform, s) == s.skip(s.len() - last_component(platform, s).len()),
        forall|k: int|
            0 <= k < last_component(platform, s).len() ==> !platform.separates(
                last_component(platform, s)[k],
            ),
        last_component(platform, s).len() < s.len() ==> platform.separates(
            s[s.len() - last_component(platform, s).len() - 1],
        ),
        s.len() > 0 && !platform.separates(s.last()) ==> last_component(platform, s).len() > 0,
    decreases s.len(),
{
    if s.len() == 0 || platform.separates(s.last()) {
        assert(s.skip(s.len() as int) =~= Seq::<char>::empty());
    } else {
        let rest = s.drop_last();
        lemma_last_component(platform, rest);
        let n = last_component(platform, rest).len();
        assert(rest.skip(rest.len() - n).push(s.last()) =~= s.skip(s.len() - (n + 1)));
    }
}

/// A path has a parent exactly when it has a file name. The two take the
/// path apart: the parent begins it; separators follow, none or more; then
/// comes the file name, which is not empty and holds no separator; and
/// separators alone end the path.
pub proof fn lemma_path_takes_apart(platform: Platform, path: Seq<char>)
    ensures
        parent(platform, path) is Some <==> file_name(platform, path) is Some,
        file_name(platform, path) is Some ==> exists|a: int, b: int, c: int|
            #![trigger path.take(a), path.subrange(b, c)]
            {
                &&& 0 <= a <= b < c <= path.len()
                &&& parent(platform, path) == Some(path.take(a))
                &&& file_name(platform, path) == Some(path.subrange(b, c))
                &&& forall|k: int| a <= k < b ==> platform.separates(path[k])
                &&& forall|k: int| b <= k < c ==> !platform.separates(path[k])
                &&& forall|k: int| c <= k < path.len() ==> platform.separates(path[k])
            },
{
    let d = drive_len(platform, path) as int;
    let body = path.skip(d);
    let stem = stem(platform, path);
    lemma_without_trailing_separators(platform, body);
    if stem.len() > 0 {
        let name = last_component(platform, stem);
        lemma_last_component(platform, stem);
        let dir = stem.take(stem.len() - name.len());
        let bare = without_trailing_separators(platform, dir);
        lemma_without_trailing_separators(platform, dir);
        let c = d + stem.len();
        let b = c - name.len();
        let a = if bare.len() == 0 {
            b
        } else {
            d + bare.len()
        };
        assert(stem.skip(stem.len() - name.len()) =~= path.subrange(b, c));
        assert(path.take(d) + dir =~= path.take(b));
        assert(path.take(d) + bare =~= path.take(d + bare.len()));
        assert forall|k: int| a <= k < b implies platform.separates(path[k]) by {
            assert(path[k] == dir[k - d]);
        }
        assert forall|k: int| b <= k < c implies !platform.separates(path[k]) by {
            assert(path[k] == name[k - b]);
        }
        assert forall|k: int| c <= k < path.len() implies platform.separates(path[k]) by {
            assert(path[k] == body[k - d]);
        }
        assert(parent(platform, path) == Some(path.take(a)));
        assert(file_name(platform, path) == Some(path.subrange(b, c)));
    }
}

} // verus!
