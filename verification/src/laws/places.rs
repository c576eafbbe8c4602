//! How paths are put together and taken apart.

use crate::paths;
use crate::paths::{PathStyle, PrefixKind};
use crate::text;
use crate::text::Text;
use vstd::prelude::*;

verus! {

/// With slashes, a part from the root stands alone, and any other stands after the base,
/// with one slash between them unless the base is empty or ends in one.
pub proof fn unix_parts_go_below_their_base(base: Text, part: Text)
    ensures
        part.len() > 0 && part[0] == '/' ==> paths::joined_path(PathStyle::Unix, base, part)
            == part,
        (part.len() == 0 || part[0] != '/') && (base.len() == 0 || base.last() == '/')
            ==> paths::joined_path(PathStyle::Unix, base, part) == base + part,
        (part.len() == 0 || part[0] != '/') && base.len() > 0 && base.last() != '/'
            ==> paths::joined_path(PathStyle::Unix, base, part) == base + seq!['/'] + part,
{
    paths::unix_paths_are_joined_by_one_slash(base, part);
}

/// The character separates the names of a path with backslashes.
pub open spec fn is_either_slash(c: char) -> bool {
    c == '\\' || c == '/'
}

/// The path begins with a letter and a colon.
pub open spec fn has_drive(path: Text) -> bool {
    &&& path.len() >= 2
    &&& 'a' <= path[0] <= 'z' || 'A' <= path[0] <= 'Z'
    &&& path[1] == ':'
}

/// The path begins with two slashes of either kind.
pub open spec fn has_two_slashes(path: Text) -> bool {
    path.len() >= 2 && is_either_slash(path[0]) && is_either_slash(path[1])
}

/// With backslashes, a part with a drive stands alone. Any other that does not begin with a
/// slash stands after a base that is not verbatim, with one backslash between them unless
/// the base is empty, ends in a slash or is a drive.
pub proof fn windows_parts_go_below_their_base(base: Text, part: Text)
    ensures
        has_drive(part) ==> paths::joined_path(PathStyle::Windows, base, part) == part,
        !has_drive(part) && (part.len() == 0 || !is_either_slash(part[0])) && !has_two_slashes(base)
            ==> paths::joined_path(PathStyle::Windows, base, part) == if base.len() == 0
            || is_either_slash(base.last()) || has_drive(base) && base.len() == 2 {
            base + part
        } else {
            base + seq!['\\'] + part
        },
{
}

/// With backslashes, a part that begins with one slash stays on the drive of the base, and
/// stands alone where the base has no drive.
pub proof fn windows_parts_from_the_root_keep_the_drive(base: Text, part: Text)
    requires
        part.len() > 0,
        is_either_slash(part[0]),
        !has_two_slashes(part),
        !has_two_slashes(base),
    ensures
        has_drive(base) ==> paths::joined_path(PathStyle::Windows, base, part) == base.take(2)
            + part,
        !has_drive(base) ==> paths::joined_path(PathStyle::Windows, base, part) == part,
{
    assert(base.take(0) + part =~= part);
}

proof fn lemma_next_slash(path: Text, from: int, to: int)
    requires
        0 <= from <= to <= path.len(),
        forall|i: int| from <= i < to ==> !is_either_slash(#[trigger] path[i]),
        to < path.len() ==> is_either_slash(path[to]),
    ensures
        paths::next_separator(PathStyle::Windows, false, path, from) == to,
    decreases to - from,
{
    if from < to {
        assert(!is_either_slash(path[from]));
        lemma_next_slash(path, from + 1, to);
    }
}

/// With backslashes, a part on a network share stands alone, and a part that begins with
/// one slash stays on the share of the base.
pub proof fn windows_shares_are_kept(
    server: Text,
    share: Text,
    rest: Text,
    base: Text,
    part: Text,
)
    requires
        server.len() > 0,
        share.len() > 0,
        server[0] != '?' && server[0] != '.',
        forall|i: int| 0 <= i < server.len() ==> !is_either_slash(#[trigger] server[i]),
        forall|i: int| 0 <= i < share.len() ==> !is_either_slash(#[trigger] share[i]),
        rest.len() > 0 ==> rest[0] == '\\',
        part.len() > 0,
        is_either_slash(part[0]),
        !has_two_slashes(part),
    ensures
        ({
            let root = seq!['\\', '\\'] + server + seq!['\\'] + share;
            &&& paths::joined_path(PathStyle::Windows, base, root + rest) == root + rest
            &&& paths::joined_path(PathStyle::Windows, root + rest, part) == root + part
        }),
{
    let root = seq!['\\', '\\'] + server + seq!['\\'] + share;
    let path = root + rest;
    let a = 2 + server.len() as int;
    let b = a + 1 + share.len() as int;
    assert(path[0] == '\\' && path[1] == '\\');
    assert(path[2] == server[0]);
    assert forall|i: int| 2 <= i < a implies !is_either_slash(#[trigger] path[i]) by {
        assert(path[i] == server[i - 2]);
    }
    assert(path[a] == '\\');
    assert forall|i: int| a + 1 <= i < b implies !is_either_slash(#[trigger] path[i]) by {
        assert(path[i] == share[i - a - 1]);
    }
    if b < path.len() {
        assert(path[b] == rest[0]);
    }
    lemma_next_slash(path, 2, a);
    lemma_next_slash(path, a + 1, b);
    assert(path.take(b) =~= root);
}

/// With slashes, the parent of a name below a directory that ends in a name is that
/// directory; that of a name at the root is the root, and that of a name alone is empty. The
/// root and the empty path have none.
pub proof fn unix_parents_are_their_directories(base: Text, name: Text)
    requires
        name.len() > 0,
        name != seq!['.'],
        forall|i: int| 0 <= i < name.len() ==> #[trigger] name[i] != '/',
    ensures
        base.len() > 0 && base != seq!['.'] && base.last() != '/' && (base.len() >= 2
            && base.last() == '.' ==> base[base.len() - 2] != '/') ==> paths::parent_of(
            PathStyle::Unix,
            base + seq!['/'] + name,
        ) == Some(base),
        paths::parent_of(PathStyle::Unix, seq!['/'] + name) == Some(seq!['/']),
        paths::parent_of(PathStyle::Unix, name) == Some(Seq::<char>::empty()),
        paths::parent_of(PathStyle::Unix, seq!['/']) is None,
        paths::parent_of(PathStyle::Unix, Seq::empty()) is None,
{
    assert(paths::is_file_name(PathStyle::Unix, name)) by {
        assert forall|i: int| 0 <= i < name.len() implies !paths::separates(
            PathStyle::Unix,
            false,
            #[trigger] name[i],
        ) by {}
    }
    if base.len() > 0 && base != seq!['.'] && base.last() != '/' && (base.len() >= 2 && base.last()
        == '.' ==> base[base.len() - 2] != '/') {
        let path = base + seq!['/'] + name;
        assert(path[0] == base[0]);
        if base.len() == 1 {
            assert(path[1] == '/');
            assert(base =~= seq![base[0]]);
        } else {
            assert(path[1] == base[1]);
        }
        paths::lemma_named_parent(PathStyle::Unix, base, '/', name);
    }
    paths::lemma_lone_parent(PathStyle::Unix, seq!['/'], name);
    assert(Seq::<char>::empty() + name =~= name);
    assert(name[0] != '/');
    if name.len() == 1 {
        assert(name =~= seq![name[0]]);
    } else {
        assert(name[1] != '/');
    }
    paths::lemma_lone_parent(PathStyle::Unix, Seq::empty(), name);
}

/// With backslashes, the parent of a name below a directory on a drive that ends in a name
/// is that directory, and that of a name at the root of a drive is the root.
pub proof fn windows_parents_are_their_directories(base: Text, name: Text)
    requires
        has_drive(base),
        base.len() >= 3,
        is_either_slash(base[2]),
        name.len() > 0,
        name != seq!['.'],
        forall|i: int| 0 <= i < name.len() ==> !is_either_slash(#[trigger] name[i]),
    ensures
        base.len() > 3 && !is_either_slash(base.last()) && (base.last() == '.'
            ==> !is_either_slash(base[base.len() - 2])) ==> paths::parent_of(
            PathStyle::Windows,
            base + seq!['\\'] + name,
        ) == Some(base),
        base.len() == 3 ==> paths::parent_of(PathStyle::Windows, base + name) == Some(base),
{
    assert(paths::is_file_name(PathStyle::Windows, name)) by {
        assert forall|i: int| 0 <= i < name.len() implies !paths::separates(
            PathStyle::Windows,
            false,
            #[trigger] name[i],
        ) by {
            assert(!is_either_slash(name[i]));
        }
    }
    if base.len() == 3 {
        let path = base + name;
        assert(path[0] == base[0] && path[1] == base[1] && path[2] == base[2]);
        paths::lemma_lone_parent(PathStyle::Windows, base, name);
    } else {
        let path = base + seq!['\\'] + name;
        assert(path[0] == base[0] && path[1] == base[1] && path[2] == base[2]);
        if !is_either_slash(base.last()) && (base.last() == '.' ==> !is_either_slash(
            base[base.len() - 2],
        )) {
            paths::lemma_named_parent(PathStyle::Windows, base, '\\', name);
        }
    }
}

/// Below a verbatim directory on a drive a name is added after a backslash, `.` stays and
/// `..` goes back to the root of the drive.
pub proof fn verbatim_paths_are_extended_name_by_name(letter: char, dir: Text, name: Text)
    requires
        'a' <= letter <= 'z' || 'A' <= letter <= 'Z',
        dir.len() > 0,
        name.len() > 0,
        dir != "."@ && dir != ".."@,
        name != "."@ && name != ".."@,
        name.len() >= 2 ==> name[1] != ':',
        forall|i: int| 0 <= i < dir.len() ==> #[trigger] dir[i] != '\\',
        forall|i: int| 0 <= i < name.len() ==> !is_either_slash(#[trigger] name[i]),
    ensures
        ({
            let root = seq!['\\', '\\', '?', '\\', letter, ':', '\\'];
            &&& paths::joined_path(PathStyle::Windows, root + dir, name) == root + dir + seq![
                '\\',
            ] + name
            &&& paths::joined_path(PathStyle::Windows, root + dir, "."@) == root + dir
            &&& paths::joined_path(PathStyle::Windows, root + dir, ".."@) == root
        }),
{
    let root = seq!['\\', '\\', '?', '\\', letter, ':', '\\'];
    let base = root + dir;
    reveal_strlit(".");
    reveal_strlit("..");
    reveal_with_fuel(paths::entered_all, 3);
    reveal_with_fuel(text::joined, 3);
    assert(base[4] == letter && base[5] == ':' && base[6] == '\\');
    assert(base[2] == '?' && base[3] == '\\' && base[0] == '\\' && base[1] == '\\');
    assert(paths::prefix_of(PathStyle::Windows, base) == (PrefixKind::Verbatim, 6int));
    assert forall|i: int| 7 <= i < base.len() implies #[trigger] base[i] != '\\' by {
        assert(base[i] == dir[i - 7]);
    }
    lemma_no_backslash(base, 7);
    assert(base.skip(7) =~= dir);
    let names = paths::names_from(true, base, 7);
    assert(names == seq![dir]);
    lemma_one_name(name);
    assert forall|i: int| 0 <= i < 1 implies !is_either_slash(#[trigger] "."@[i]) by {}
    lemma_one_name("."@);
    assert forall|i: int| 0 <= i < 2 implies !is_either_slash(#[trigger] ".."@[i]) by {}
    lemma_one_name(".."@);
    assert(!is_either_slash(name[0]));
    assert(seq![name].drop_last() =~= Seq::empty());
    assert(seq!["."@].drop_last() =~= Seq::empty());
    assert(seq![".."@].drop_last() =~= Seq::empty());
    assert(paths::entered_all(names, seq![name]) == seq![dir, name]) by {
        assert(names.push(name) =~= seq![dir, name]);
    }
    assert(paths::entered_all(names, seq!["."@]) == names);
    assert(paths::entered_all(names, seq![".."@]) == Seq::<Text>::empty()) by {
        assert(names.drop_last() =~= Seq::empty());
    }
    assert(base.take(6) + seq!['\\'] =~= root);
    let separator = seq!['\\'];
    assert(seq![dir, name].drop_last() =~= seq![dir]);
    assert(text::joined(seq![dir], separator) == dir);
    assert(text::joined(seq![dir, name], separator) == dir + separator + name);
    assert(base.take(6) + seq!['\\'] + (dir + separator + name) =~= root + dir + seq!['\\'] + name);
    assert(base.take(6) + seq!['\\'] + dir =~= root + dir);
    assert(root + Seq::<char>::empty() =~= root);
}

proof fn lemma_no_backslash(path: Text, from: int)
    requires
        0 <= from <= path.len(),
        forall|i: int| from <= i < path.len() ==> #[trigger] path[i] != '\\',
    ensures
        paths::next_separator(PathStyle::Windows, true, path, from) == path.len(),
    decreases path.len() - from,
{
    if from < path.len() {
        assert(path[from] != '\\');
        lemma_no_backslash(path, from + 1);
    }
}

proof fn lemma_one_name(name: Text)
    requires
        name.len() > 0,
        forall|i: int| 0 <= i < name.len() ==> !is_either_slash(#[trigger] name[i]),
    ensures
        paths::names_from(false, name, 0) == seq![name],
{
    lemma_next_slash(name, 0, name.len() as int);
    assert(name.skip(0) =~= name);
}

/// Two names below a verbatim directory on a drive are added one after the other, whichever
/// slash is between or after them.
pub proof fn verbatim_paths_take_several_names(
    letter: char,
    dir: Text,
    first: Text,
    between: char,
    second: Text,
)
    requires
        'a' <= letter <= 'z' || 'A' <= letter <= 'Z',
        dir.len() > 0,
        first.len() > 0,
        second.len() > 0,
        is_either_slash(between),
        dir != "."@ && dir != ".."@,
        first != "."@ && first != ".."@,
        second != "."@ && second != ".."@,
        first.len() >= 2 ==> first[1] != ':',
        forall|i: int| 0 <= i < dir.len() ==> #[trigger] dir[i] != '\\',
        forall|i: int| 0 <= i < first.len() ==> !is_either_slash(#[trigger] first[i]),
        forall|i: int| 0 <= i < second.len() ==> !is_either_slash(#[trigger] second[i]),
    ensures
        ({
            let root = seq!['\\', '\\', '?', '\\', letter, ':', '\\'];
            let base = root + dir;
            &&& paths::joined_path(PathStyle::Windows, base, first + seq![between] + second) == base
                + seq!['\\'] + first + seq!['\\'] + second
            &&& paths::joined_path(PathStyle::Windows, base, first + seq![between]) == base + seq![
                '\\',
            ] + first
        }),
{
    let root = seq!['\\', '\\', '?', '\\', letter, ':', '\\'];
    let base = root + dir;
    let separator = seq!['\\'];
    reveal_with_fuel(paths::entered_all, 3);
    lemma_verbatim_base(letter, dir);
    let names = paths::names_from(true, base, 7);
    let long = first + seq![between] + second;
    let short = first + seq![between];
    let n = first.len() as int;
    assert(!is_either_slash(first[0]));
    assert(long[0] == first[0] && short[0] == first[0]);
    if n >= 2 {
        assert(long[1] == first[1] && short[1] == first[1]);
    } else {
        assert(long[1] == between && short[1] == between);
    }
    assert forall|i: int| 0 <= i < n implies !is_either_slash(#[trigger] long[i]) by {
        assert(long[i] == first[i]);
    }
    assert forall|i: int| 0 <= i < n implies !is_either_slash(#[trigger] short[i]) by {
        assert(short[i] == first[i]);
    }
    assert forall|i: int| n + 1 <= i < long.len() implies !is_either_slash(#[trigger] long[i]) by {
        assert(long[i] == second[i - n - 1]);
    }
    lemma_next_slash(long, 0, n);
    lemma_next_slash(long, n + 1, long.len() as int);
    lemma_next_slash(short, 0, n);
    assert(long.subrange(0, n) =~= first);
    assert(long.skip(n + 1) =~= second);
    assert(short.subrange(0, n) =~= first);
    assert(paths::names_from(false, long, n + 1) == seq![second]);
    assert(paths::names_from(false, long, 0) =~= seq![first, second]);
    assert(paths::names_from(false, short, n + 1) == Seq::<Text>::empty());
    assert(paths::names_from(false, short, 0) =~= seq![first]);
    assert(seq![first].drop_last() =~= Seq::empty());
    assert(seq![first, second].drop_last() =~= seq![first]);
    assert(names.push(first) =~= seq![dir, first]);
    assert(names.push(first).push(second) =~= seq![dir, first, second]);
    assert(paths::entered_all(names, seq![first]) == seq![dir, first]);
    assert(paths::entered_all(names, seq![first, second]) == seq![dir, first, second]);
    assert(seq![dir, first].drop_last() =~= seq![dir]);
    assert(seq![dir, first, second].drop_last() =~= seq![dir, first]);
    assert(text::joined(seq![dir], separator) == dir);
    assert(text::joined(seq![dir, first], separator) == dir + separator + first);
    assert(text::joined(seq![dir, first, second], separator) == dir + separator + first + separator
        + second);
    assert(base.take(6) + seq!['\\'] + (dir + separator + first) =~= base + seq!['\\'] + first);
    assert(base.take(6) + seq!['\\'] + (dir + separator + first + separator + second) =~= base
        + seq!['\\'] + first + seq!['\\'] + second);
}

proof fn lemma_verbatim_base(letter: char, dir: Text)
    requires
        'a' <= letter <= 'z' || 'A' <= letter <= 'Z',
        dir.len() > 0,
        forall|i: int| 0 <= i < dir.len() ==> #[trigger] dir[i] != '\\',
    ensures
        ({
            let base = seq!['\\', '\\', '?', '\\', letter, ':', '\\'] + dir;
            &&& paths::prefix_of(PathStyle::Windows, base) == (PrefixKind::Verbatim, 6int)
            &&& base[6] == '\\'
            &&& paths::names_from(true, base, 7) == seq![dir]
        }),
{
    let base = seq!['\\', '\\', '?', '\\', letter, ':', '\\'] + dir;
    assert(base[4] == letter && base[5] == ':' && base[6] == '\\');
    assert(base[2] == '?' && base[3] == '\\' && base[0] == '\\' && base[1] == '\\');
    assert forall|i: int| 7 <= i < base.len() implies #[trigger] base[i] != '\\' by {
        assert(base[i] == dir[i - 7]);
    }
    lemma_no_backslash(base, 7);
    assert(base.skip(7) =~= dir);
}

/// A server without a share is no prefix: a part that begins with one slash stands alone
/// after it.
pub proof fn windows_servers_need_a_share(server: Text, part: Text)
    requires
        server.len() > 0,
        server[0] != '?' && server[0] != '.',
        forall|i: int| 0 <= i < server.len() ==> !is_either_slash(#[trigger] server[i]),
        part.len() > 0,
        is_either_slash(part[0]),
        !has_two_slashes(part),
    ensures
        paths::joined_path(PathStyle::Windows, seq!['\\', '\\'] + server, part) == part,
        paths::joined_path(PathStyle::Windows, seq!['\\', '\\'] + server + seq!['\\'], part)
            == part,
        paths::joined_path(
            PathStyle::Windows,
            seq!['\\', '\\'] + server + seq!['\\', '\\'],
            part,
        ) == part,
{
    let a = 2 + server.len() as int;
    let bare = seq!['\\', '\\'] + server;
    let ended = seq!['\\', '\\'] + server + seq!['\\'];
    let twice = seq!['\\', '\\'] + server + seq!['\\', '\\'];
    assert(bare[0] == '\\' && bare[1] == '\\' && bare[2] == server[0]);
    assert(ended[0] == '\\' && ended[1] == '\\' && ended[2] == server[0] && ended[a] == '\\');
    assert(twice[0] == '\\' && twice[1] == '\\' && twice[2] == server[0]);
    assert(twice[a] == '\\' && twice[a + 1] == '\\');
    assert forall|i: int| 2 <= i < a implies !is_either_slash(#[trigger] bare[i]) by {
        assert(bare[i] == server[i - 2]);
    }
    assert forall|i: int| 2 <= i < a implies !is_either_slash(#[trigger] ended[i]) by {
        assert(ended[i] == server[i - 2]);
    }
    assert forall|i: int| 2 <= i < a implies !is_either_slash(#[trigger] twice[i]) by {
        assert(twice[i] == server[i - 2]);
    }
    lemma_next_slash(bare, 2, a);
    lemma_next_slash(ended, 2, a);
    lemma_next_slash(twice, 2, a);
    lemma_next_slash(ended, a + 1, a + 1);
    lemma_next_slash(twice, a + 1, a + 1);
    assert(bare.take(0) + part =~= part);
    assert(ended.take(0) + part =~= part);
    assert(twice.take(0) + part =~= part);
}

/// A name is entered after those before it, `.` changes nothing, and `..` takes off the last
/// name alone.
pub proof fn names_are_entered_one_by_one(names: Seq<Text>, last: Text, name: Text)
    requires
        last != "."@ && last != ".."@,
        name != "."@ && name != ".."@,
    ensures
        paths::entered(names, name) == names.push(name),
        paths::entered(names, "."@) == names,
        paths::entered(names.push(last), ".."@) == names,
        paths::entered(Seq::empty(), ".."@) == Seq::<Text>::empty(),
{
    reveal_strlit(".");
    reveal_strlit("..");
    assert("."@.len() != ".."@.len());
    assert(names.push(last).drop_last() =~= names);
}

/// A backslash more before a name makes no difference to the names.
pub proof fn repeated_backslashes_count_once(verbatim: bool, path: Text, from: int)
    requires
        0 <= from < path.len(),
        path[from] == '\\',
    ensures
        paths::names_from(verbatim, path, from) == paths::names_from(verbatim, path, from + 1),
{
}

} // verus!
