//! Paths as text, by the rules of the system that they are for.

use crate::text;
use crate::text::{chars_of, concat2, concat3, join, text_eq, Text};
use vstd::prelude::*;

verus! {

/// How a system writes its paths.
#[derive(Debug, Clone, Copy, PartialEq, Eq, Structural)]
pub enum PathStyle {
    /// Names between slashes, from the root or from the current directory.
    Unix,
    /// Names between backslashes or slashes, on a drive, a network share or a
    /// device, or verbatim, where only backslashes separate.
    Windows,
}

/// The separator that is put between names.
pub open spec fn main_separator(style: PathStyle) -> char {
    match style {
        PathStyle::Unix => '/',
        PathStyle::Windows => '\\',
    }
}

impl PathStyle {
    /// The separator that is put between names.
    pub fn separator(self) -> (res: char)
        ensures
            res == main_separator(self),
    {
        match self {
            PathStyle::Unix => '/',
            PathStyle::Windows => '\\',
        }
    }

    fn separator_text(self) -> (res: &'static str)
        ensures
            res@ == seq![main_separator(self)],
    {
        proof {
            reveal_strlit("/");
            reveal_strlit("\\");
        }
        match self {
            PathStyle::Unix => "/",
            PathStyle::Windows => "\\",
        }
    }
}

/// The character separates names, in a verbatim path or another.
pub open spec fn separates(style: PathStyle, verbatim: bool, c: char) -> bool {
    match style {
        PathStyle::Unix => c == '/',
        PathStyle::Windows => c == '\\' || c == '/' && !verbatim,
    }
}

fn is_separator(style: PathStyle, verbatim: bool, c: char) -> (res: bool)
    ensures
        res == separates(style, verbatim, c),
{
    match style {
        PathStyle::Unix => c == '/',
        PathStyle::Windows => c == '\\' || c == '/' && !verbatim,
    }
}

/// There is a separator at position `i`.
pub open spec fn separated_at(style: PathStyle, path: Text, i: int) -> bool {
    0 <= i < path.len() && separates(style, false, path[i])
}

/// The first position from `from` on with a separator, or the end.
pub open spec fn next_separator(style: PathStyle, verbatim: bool, path: Text, from: int) -> int
    decreases path.len() - from,
{
    if from >= path.len() {
        path.len() as int
    } else if separates(style, verbatim, path[from]) {
        from
    } else {
        next_separator(style, verbatim, path, from + 1)
    }
}

fn find_separator(style: PathStyle, verbatim: bool, path: &Vec<char>, from: usize) -> (res: usize)
    requires
        from <= path@.len(),
    ensures
        res == next_separator(style, verbatim, path@, from as int),
        from <= res <= path@.len(),
{
    let mut i: usize = from;
    while i < path.len() && !is_separator(style, verbatim, path[i])
        invariant
            from <= i <= path@.len(),
            next_separator(style, verbatim, path@, from as int) == next_separator(
                style,
                verbatim,
                path@,
                i as int,
            ),
        decreases path@.len() - i,
    {
        i += 1;
    }
    i
}

/// What a path begins with.
#[derive(Debug, Clone, Copy, PartialEq, Eq, Structural)]
pub enum PrefixKind {
    Absent,
    /// A drive, such as `C:`.
    Drive,
    /// A network share or a device, such as `\\server\share` or `\\.\COM1`.
    Share,
    /// Anything after `\\?\`.
    Verbatim,
}

/// There is a letter with a colon at position `i`.
pub open spec fn drive_at(path: Text, i: int) -> bool {
    i + 1 < path.len() && ('a' <= path[i] <= 'z' || 'A' <= path[i] <= 'Z') && path[i + 1] == ':'
}

/// Two names from position `from` on with a separator between them: where the
/// first ends, and where the second does. Both are the same where there is no
/// second name.
pub open spec fn two_names(verbatim: bool, path: Text, from: int) -> (int, int) {
    let first = next_separator(PathStyle::Windows, verbatim, path, from);
    let second = next_separator(PathStyle::Windows, verbatim, path, first + 1);
    if second > first + 1 {
        (first, second)
    } else {
        (first, first)
    }
}

/// How long the prefix is that comes after `\\?\`: a share, a drive or a name.
pub open spec fn verbatim_length(path: Text) -> int {
    if 8 <= path.len() && path[4] == 'U' && path[5] == 'N' && path[6] == 'C' && separated_at(
        PathStyle::Windows,
        path,
        7,
    ) {
        two_names(true, path, 8).1
    } else if drive_at(path, 4) && (path.len() == 6 || separated_at(PathStyle::Windows, path, 6)) {
        6
    } else {
        next_separator(PathStyle::Windows, true, path, 4)
    }
}

/// The prefix of a path, and how long it is.
pub open spec fn prefix_of(style: PathStyle, path: Text) -> (PrefixKind, int) {
    if style == PathStyle::Unix {
        (PrefixKind::Absent, 0)
    } else if separated_at(style, path, 0) && separated_at(style, path, 1) {
        if 4 <= path.len() && path[0] == '\\' && path[1] == '\\' && path[2] == '?' && path[3]
            == '\\' {
            (PrefixKind::Verbatim, verbatim_length(path))
        } else if 4 <= path.len() && path[2] == '.' && separated_at(style, path, 3) {
            (PrefixKind::Share, next_separator(style, false, path, 4))
        } else {
            let (server, share) = two_names(false, path, 2);
            if 2 < server < share {
                (PrefixKind::Share, share)
            } else {
                (PrefixKind::Absent, 0)
            }
        }
    } else if drive_at(path, 0) {
        (PrefixKind::Drive, 2)
    } else {
        (PrefixKind::Absent, 0)
    }
}

fn has_separator_at(style: PathStyle, path: &Vec<char>, i: usize) -> (res: bool)
    ensures
        res == separated_at(style, path@, i as int),
{
    i < path.len() && is_separator(style, false, path[i])
}

fn has_drive_at(path: &Vec<char>, i: usize) -> (res: bool)
    requires
        i <= 4,
    ensures
        res == drive_at(path@, i as int),
{
    i + 1 < path.len() && ('a' <= path[i] && path[i] <= 'z' || 'A' <= path[i] && path[i] <= 'Z')
        && path[i + 1] == ':'
}

fn find_two_names(verbatim: bool, path: &Vec<char>, from: usize) -> (res: (usize, usize))
    requires
        from <= path@.len(),
    ensures
        (res.0 as int, res.1 as int) == two_names(verbatim, path@, from as int),
        from <= res.0 <= res.1 <= path@.len(),
{
    let first: usize = find_separator(PathStyle::Windows, verbatim, path, from);
    if first == path.len() {
        return (first, first);
    }
    let second: usize = find_separator(PathStyle::Windows, verbatim, path, first + 1);
    if second > first + 1 {
        (first, second)
    } else {
        (first, first)
    }
}

fn find_verbatim_length(path: &Vec<char>) -> (res: usize)
    requires
        path@.len() >= 4,
    ensures
        res == verbatim_length(path@),
        4 <= res <= path@.len(),
{
    if 8 <= path.len() && path[4] == 'U' && path[5] == 'N' && path[6] == 'C' && has_separator_at(
        PathStyle::Windows,
        path,
        7,
    ) {
        find_two_names(true, path, 8).1
    } else if has_drive_at(path, 4) && (path.len() == 6 || has_separator_at(
        PathStyle::Windows,
        path,
        6,
    )) {
        6
    } else {
        find_separator(PathStyle::Windows, true, path, 4)
    }
}

fn find_prefix(style: PathStyle, path: &Vec<char>) -> (res: (PrefixKind, usize))
    ensures
        (res.0, res.1 as int) == prefix_of(style, path@),
        res.1 <= path@.len(),
{
    match style {
        PathStyle::Unix => {
            return (PrefixKind::Absent, 0);
        },
        PathStyle::Windows => {},
    }
    if has_separator_at(style, path, 0) && has_separator_at(style, path, 1) {
        if 4 <= path.len() && path[0] == '\\' && path[1] == '\\' && path[2] == '?' && path[3]
            == '\\' {
            (PrefixKind::Verbatim, find_verbatim_length(path))
        } else if 4 <= path.len() && path[2] == '.' && has_separator_at(style, path, 3) {
            (PrefixKind::Share, find_separator(style, false, path, 4))
        } else {
            let (server, share) = find_two_names(false, path, 2);
            if 2 < server && server < share {
                (PrefixKind::Share, share)
            } else {
                (PrefixKind::Absent, 0)
            }
        }
    } else if has_drive_at(path, 0) {
        (PrefixKind::Drive, 2)
    } else {
        (PrefixKind::Absent, 0)
    }
}

/// The names between the separators from position `from` on.
pub open spec fn names_from(verbatim: bool, path: Text, from: int) -> Seq<Text>
    decreases path.len() - from,
{
    if from >= path.len() {
        Seq::empty()
    } else {
        let end = next_separator(PathStyle::Windows, verbatim, path, from);
        if end <= from {
            names_from(verbatim, path, from + 1)
        } else if end >= path.len() {
            seq![path.skip(from)]
        } else {
            seq![path.subrange(from, end)] + names_from(verbatim, path, end + 1)
        }
    }
}

/// `names` followed by one more, where `.` stays and `..` goes back by one name.
pub open spec fn entered(names: Seq<Text>, name: Text) -> Seq<Text> {
    if name == "."@ {
        names
    } else if name == ".."@ {
        if names.len() > 0 && names.last() != "."@ && names.last() != ".."@ {
            names.drop_last()
        } else {
            names
        }
    } else {
        names.push(name)
    }
}

/// `names` followed by others, one by one.
pub open spec fn entered_all(names: Seq<Text>, more: Seq<Text>) -> Seq<Text>
    decreases more.len(),
{
    if more.len() == 0 {
        names
    } else {
        entered(entered_all(names, more.drop_last()), more.last())
    }
}

/// A verbatim path extended by another that has no prefix. The outcome has its
/// names between single backslashes.
pub open spec fn joined_verbatim(base: Text, part: Text) -> Text {
    let length = prefix_of(PathStyle::Windows, base).1;
    let rooted = separated_at(PathStyle::Windows, base, length);
    let restarts = separated_at(PathStyle::Windows, part, 0);
    let names = if restarts {
        Seq::empty()
    } else {
        names_from(
            true,
            base,
            if rooted {
                length + 1
            } else {
                length
            },
        )
    };
    let all = entered_all(names, names_from(false, part, 0));
    base.take(length) + (if rooted || restarts || all.len() > 0 {
        seq!['\\']
    } else {
        Seq::empty()
    }) + text::joined(all, seq!['\\'])
}

/// `base` extended by `part`. A `part` with a prefix stands alone, and one from
/// the root keeps only the prefix of `base`. Otherwise one separator is put
/// between the two, unless `base` is empty, ends in one or is a drive. A verbatim
/// `base` is extended name by name.
pub open spec fn joined_path(style: PathStyle, base: Text, part: Text) -> Text {
    let (kind, length) = prefix_of(style, base);
    if prefix_of(style, part).0 != PrefixKind::Absent {
        part
    } else if kind == PrefixKind::Verbatim && part.len() > 0 {
        joined_verbatim(base, part)
    } else if separated_at(style, part, 0) {
        base.take(length) + part
    } else if base.len() == 0 || separated_at(style, base, base.len() - 1) || kind
        == PrefixKind::Drive && length == base.len() {
        base + part
    } else {
        base + seq![main_separator(style)] + part
    }
}

fn find_names(verbatim: bool, path: &str, from: usize) -> (res: Vec<String>)
    requires
        from <= path@.len(),
    ensures
        res.deep_view() == names_from(verbatim, path@, from as int),
{
    let chars = chars_of(path);
    let mut res: Vec<String> = Vec::new();
    let mut i: usize = from;
    assert(res.deep_view() + names_from(verbatim, path@, i as int) =~= names_from(
        verbatim,
        path@,
        i as int,
    ));
    while i < chars.len()
        invariant
            i <= chars@.len(),
            chars@ == path@,
            res.deep_view() + names_from(verbatim, path@, i as int) == names_from(
                verbatim,
                path@,
                from as int,
            ),
        decreases chars@.len() - i,
    {
        let end: usize = find_separator(PathStyle::Windows, verbatim, &chars, i);
        if end == i {
            i += 1;
        } else {
            let ghost before = res.deep_view();
            let ghost name = path@.subrange(i as int, end as int);
            res.push(path.substring_char(i, end).to_owned());
            assert(res.deep_view() =~= before.push(name));
            if end < chars.len() {
                let ghost rest = names_from(verbatim, path@, end + 1);
                assert(before.push(name) + rest =~= before + (seq![name] + rest));
                i = end + 1;
            } else {
                assert(name =~= path@.skip(i as int));
                assert(before.push(name) + Seq::empty() =~= before + seq![name]);
                i = end;
            }
        }
    }
    assert(res.deep_view() + Seq::<Text>::empty() =~= res.deep_view());
    res
}

fn enter(names: &mut Vec<String>, name: &str)
    ensures
        final(names).deep_view() == entered(old(names).deep_view(), name@),
{
    if text_eq(name, ".") {
        return;
    }
    if text_eq(name, "..") {
        let count: usize = names.len();
        if count > 0 {
            assert(names.deep_view().last() == names@[count - 1]@);
            if !text_eq(names[count - 1].as_str(), ".") && !text_eq(names[count - 1].as_str(), "..") {
                let _ = names.pop();
                assert(names.deep_view() =~= old(names).deep_view().drop_last());
            }
        }
        return;
    }
    names.push(name.to_owned());
    assert(names.deep_view() =~= old(names).deep_view().push(name@));
}

fn join_verbatim(base: &str, part: &str, length: usize) -> (res: String)
    requires
        length == prefix_of(PathStyle::Windows, base@).1,
        length <= base@.len(),
    ensures
        res@ == joined_verbatim(base@, part@),
{
    let base_chars = chars_of(base);
    let part_chars = chars_of(part);
    let rooted = has_separator_at(PathStyle::Windows, &base_chars, length);
    let restarts = has_separator_at(PathStyle::Windows, &part_chars, 0);
    assert(rooted ==> length < base_chars.len());
    let mut all: Vec<String> = Vec::new();
    assert(all.deep_view() =~= Seq::empty());
    if !restarts {
        all = find_names(
            true,
            base,
            if rooted {
                length + 1
            } else {
                length
            },
        );
    }
    let ghost names = all.deep_view();
    let more = find_names(false, part, 0);
    let ghost wanted = more.deep_view();
    assert(wanted.take(0) =~= Seq::empty());
    let mut i: usize = 0;
    while i < more.len()
        invariant
            i <= more@.len(),
            wanted == more.deep_view(),
            all.deep_view() == entered_all(names, wanted.take(i as int)),
        decreases more@.len() - i,
    {
        proof {
            let longer = wanted.take(i + 1);
            assert(longer.drop_last() =~= wanted.take(i as int));
            assert(longer.last() == more@[i as int]@);
        }
        enter(&mut all, more[i].as_str());
        i += 1;
    }
    assert(wanted.take(wanted.len() as int) =~= wanted);
    proof {
        reveal_strlit("\\");
        assert("\\"@ =~= seq!['\\']);
    }
    let mut res = base.substring_char(0, length).to_owned();
    assert(base@.subrange(0, length as int) =~= base@.take(length as int));
    if rooted || restarts || all.len() > 0 {
        res.append("\\");
    }
    res.append(join(&all, "\\").as_str());
    assert(res@ =~= joined_verbatim(base@, part@));
    res
}

/// `base` extended by `part`.
pub fn join_path(style: PathStyle, base: &str, part: &str) -> (res: String)
    ensures
        res@ == joined_path(style, base@, part@),
{
    let base_chars = chars_of(base);
    let part_chars = chars_of(part);
    let (kind, length) = find_prefix(style, &base_chars);
    let (own, _) = find_prefix(style, &part_chars);
    if own != PrefixKind::Absent {
        return part.to_owned();
    }
    if kind == PrefixKind::Verbatim && part_chars.len() > 0 {
        return join_verbatim(base, part, length);
    }
    if has_separator_at(style, &part_chars, 0) {
        assert(base@.subrange(0, length as int) =~= base@.take(length as int));
        return concat2(base.substring_char(0, length), part);
    }
    let count: usize = base_chars.len();
    if count == 0 || has_separator_at(style, &base_chars, count - 1) || kind == PrefixKind::Drive
        && length == count {
        concat2(base, part)
    } else {
        concat3(base, style.separator_text(), part)
    }
}

/// The last position from `floor` to before `end` with a separator, or the one
/// before `floor`.
pub open spec fn last_separator(
    style: PathStyle,
    verbatim: bool,
    path: Text,
    floor: int,
    end: int,
) -> int
    decreases end - floor,
{
    if end <= floor {
        floor - 1
    } else if separates(style, verbatim, path[end - 1]) {
        end - 1
    } else {
        last_separator(style, verbatim, path, floor, end - 1)
    }
}

/// Where what is before the last name ends.
pub open spec fn before_name(
    style: PathStyle,
    verbatim: bool,
    path: Text,
    floor: int,
    end: int,
) -> int {
    let at = last_separator(style, verbatim, path, floor, end);
    if at < floor {
        floor
    } else {
        at
    }
}

/// The name counts for nothing: it is empty, or a dot in a path that is not
/// verbatim.
pub open spec fn is_idle(verbatim: bool, name: Text) -> bool {
    name.len() == 0 || !verbatim && name == seq!['.']
}

/// Where the last name ends that counts, or `floor`.
pub open spec fn names_end(
    style: PathStyle,
    verbatim: bool,
    path: Text,
    floor: int,
    end: int,
) -> int
    decreases end - floor,
{
    if end <= floor {
        floor
    } else {
        let at = last_separator(style, verbatim, path, floor, end);
        if floor - 1 <= at < end && is_idle(verbatim, path.subrange(at + 1, end)) {
            names_end(style, verbatim, path, floor, before_name(style, verbatim, path, floor, end))
        } else {
            end
        }
    }
}

/// The path goes from the current directory and says so by a dot in front.
pub open spec fn starts_with_dot(style: PathStyle, path: Text) -> bool {
    let (kind, length) = prefix_of(style, path);
    &&& kind == PrefixKind::Absent || kind == PrefixKind::Drive
    &&& 0 <= length < path.len() && path[length] == '.'
    &&& length + 1 == path.len() || separated_at(style, path, length + 1)
}

/// Where the names of a path begin: after its prefix and its root or its dot.
pub open spec fn names_begin(style: PathStyle, path: Text) -> int {
    let length = prefix_of(style, path).1;
    if separated_at(style, path, length) || starts_with_dot(style, path) {
        length + 1
    } else {
        length
    }
}

/// A path without its last name, if it has one. A dot in front is one where no
/// other name follows.
pub open spec fn parent_of(style: PathStyle, path: Text) -> Option<Text> {
    let verbatim = prefix_of(style, path).0 == PrefixKind::Verbatim;
    let floor = names_begin(style, path);
    let end = names_end(style, verbatim, path, floor, path.len() as int);
    if end > floor {
        Some(
            path.take(
                names_end(
                    style,
                    verbatim,
                    path,
                    floor,
                    before_name(style, verbatim, path, floor, end),
                ),
            ),
        )
    } else if starts_with_dot(style, path) {
        Some(path.take(floor - 1))
    } else {
        None
    }
}

fn find_last_separator(
    style: PathStyle,
    verbatim: bool,
    path: &Vec<char>,
    floor: usize,
    end: usize,
) -> (res: Option<usize>)
    requires
        floor <= end <= path@.len(),
    ensures
        match res {
            Some(at) => floor <= at < end && at == last_separator(
                style,
                verbatim,
                path@,
                floor as int,
                end as int,
            ),
            None => last_separator(style, verbatim, path@, floor as int, end as int) == floor - 1,
        },
{
    let mut i: usize = end;
    while i > floor
        invariant
            floor <= i <= end <= path@.len(),
            last_separator(style, verbatim, path@, floor as int, end as int) == last_separator(
                style,
                verbatim,
                path@,
                floor as int,
                i as int,
            ),
        decreases i,
    {
        if is_separator(style, verbatim, path[i - 1]) {
            return Some(i - 1);
        }
        i -= 1;
    }
    None
}

fn find_before_name(
    style: PathStyle,
    verbatim: bool,
    path: &Vec<char>,
    floor: usize,
    end: usize,
) -> (res: usize)
    requires
        floor <= end <= path@.len(),
    ensures
        res == before_name(style, verbatim, path@, floor as int, end as int),
        floor <= res <= end,
{
    match find_last_separator(style, verbatim, path, floor, end) {
        Some(at) => at,
        None => floor,
    }
}

fn find_names_end(
    style: PathStyle,
    verbatim: bool,
    path: &Vec<char>,
    floor: usize,
    end: usize,
) -> (res: usize)
    requires
        floor <= end <= path@.len(),
    ensures
        res == names_end(style, verbatim, path@, floor as int, end as int),
        floor <= res <= end,
{
    let mut i: usize = end;
    while i > floor
        invariant
            floor <= i <= end <= path@.len(),
            names_end(style, verbatim, path@, floor as int, end as int) == names_end(
                style,
                verbatim,
                path@,
                floor as int,
                i as int,
            ),
        decreases i,
    {
        let found = find_last_separator(style, verbatim, path, floor, i);
        let begin: usize = match found {
            Some(at) => at + 1,
            None => floor,
        };
        let idle = begin == i || !verbatim && begin + 1 == i && path[begin] == '.';
        proof {
            let name = path@.subrange(begin as int, i as int);
            if idle && begin < i {
                assert(name =~= seq!['.']);
            }
            if begin + 1 == i && path[begin as int] != '.' {
                assert(name[0] == path@[begin as int]);
                assert(name != seq!['.']);
            }
            if begin + 1 < i {
                assert(name.len() != seq!['.'].len());
            }
            assert(idle == is_idle(verbatim, name));
        }
        if !idle {
            return i;
        }
        i = match found {
            Some(at) => at,
            None => floor,
        };
    }
    floor
}

/// A path without its last name, if it has one.
pub fn parent_path(style: PathStyle, path: &str) -> (res: Option<String>)
    ensures
        res.deep_view() == parent_of(style, path@),
{
    let chars = chars_of(path);
    let (kind, length) = find_prefix(style, &chars);
    let verbatim = kind == PrefixKind::Verbatim;
    let rooted = has_separator_at(style, &chars, length);
    let dotted = (kind == PrefixKind::Absent || kind == PrefixKind::Drive) && length < chars.len()
        && chars[length] == '.' && (length + 1 == chars.len() || has_separator_at(
        style,
        &chars,
        length + 1,
    ));
    assert(dotted == starts_with_dot(style, path@));
    assert(rooted ==> length < chars.len());
    let floor: usize = if rooted || dotted {
        length + 1
    } else {
        length
    };
    let end: usize = find_names_end(style, verbatim, &chars, floor, chars.len());
    if end > floor {
        let before: usize = find_before_name(style, verbatim, &chars, floor, end);
        let cut: usize = find_names_end(style, verbatim, &chars, floor, before);
        assert(path@.subrange(0, cut as int) =~= path@.take(cut as int));
        Some(path.substring_char(0, cut).to_owned())
    } else if dotted {
        assert(path@.subrange(0, floor - 1) =~= path@.take(floor - 1));
        Some(path.substring_char(0, floor - 1).to_owned())
    } else {
        None
    }
}

/// With slashes, an absolute part stands alone, and one slash is put between two
/// others unless the first is empty or ends in one.
pub proof fn unix_paths_are_joined_by_one_slash(base: Text, part: Text)
    ensures
        joined_path(PathStyle::Unix, base, part) == if part.len() > 0 && part[0] == '/' {
            part
        } else if base.len() == 0 || base.last() == '/' {
            base + part
        } else {
            base + seq!['/'] + part
        },
{
    assert(base.take(0) + part =~= part);
}

/// With backslashes, a part on a drive stands alone, and one backslash is put
/// between a directory on a drive and a name below it.
pub proof fn windows_paths_are_joined_by_one_backslash(base: Text, part: Text)
    requires
        drive_at(base, 0),
        base.len() > 2,
        !separated_at(PathStyle::Windows, base, base.len() - 1),
        !separated_at(PathStyle::Windows, part, 0),
    ensures
        joined_path(PathStyle::Windows, base, part) == if drive_at(part, 0) {
            part
        } else {
            base + seq!['\\'] + part
        },
{
}

/// The text can be the name of a file: it is not empty, not a dot, and has no
/// separator in it.
pub open spec fn is_file_name(style: PathStyle, name: Text) -> bool {
    &&& name.len() > 0
    &&& name != seq!['.']
    &&& forall|i: int| 0 <= i < name.len() ==> !separates(style, false, #[trigger] name[i])
}

proof fn lemma_no_separator(
    style: PathStyle,
    verbatim: bool,
    path: Text,
    floor: int,
    middle: int,
    end: int,
)
    requires
        floor <= middle <= end <= path.len(),
        0 <= floor,
        forall|i: int| middle <= i < end ==> !separates(style, false, #[trigger] path[i]),
    ensures
        last_separator(style, verbatim, path, floor, end) == last_separator(
            style,
            verbatim,
            path,
            floor,
            middle,
        ),
    decreases end,
{
    if middle < end {
        assert(!separates(style, false, path[end - 1]));
        lemma_no_separator(style, verbatim, path, floor, middle, end - 1);
    }
}

proof fn lemma_last_separator(style: PathStyle, path: Text, floor: int, end: int)
    requires
        0 <= floor <= end <= path.len(),
    ensures
        ({
            let at = last_separator(style, false, path, floor, end);
            &&& floor - 1 <= at < end
            &&& at >= floor ==> separates(style, false, path[at])
            &&& forall|i: int| at < i < end ==> !separates(style, false, #[trigger] path[i])
        }),
    decreases end,
{
    if end > floor && !separates(style, false, path[end - 1]) {
        lemma_last_separator(style, path, floor, end - 1);
    }
}

/// A file below a directory that ends in a name has that directory as its parent.
pub proof fn lemma_named_parent(style: PathStyle, base: Text, separator: char, name: Text)
    requires
        ({
            let path = base + seq![separator] + name;
            let floor = names_begin(style, path);
            &&& prefix_of(style, path).0 != PrefixKind::Verbatim
            &&& 0 <= floor < base.len()
            &&& !separates(style, false, base.last())
            &&& base.last() == '.' ==> base.len() - 2 >= floor && !separates(
                style,
                false,
                base[base.len() - 2],
            )
            &&& separates(style, false, separator)
            &&& is_file_name(style, name)
        }),
    ensures
        parent_of(style, base + seq![separator] + name) == Some(base),
{
    let path = base + seq![separator] + name;
    let floor = names_begin(style, path);
    let at = last_separator(style, false, base, floor, base.len() as int);
    lemma_last_separator(style, base, floor, base.len() as int);
    let above = base.take(at + 1);
    let dir = base.skip(at + 1);
    assert(above + dir =~= base);
    assert(base[base.len() - 1] == base.last());
    assert(dir.last() == base.last());
    assert forall|i: int| 0 <= i < dir.len() implies !separates(
        style,
        false,
        #[trigger] dir[i],
    ) by {
        assert(dir[i] == base[at + 1 + i]);
    }
    if dir == seq!['.'] {
        assert(dir[0] == '.');
        assert(base.len() == at + 2);
    }
    lemma_parent(style, above, dir, separator, name);
}

/// A name directly after what comes before all names has that as its parent.
pub proof fn lemma_lone_parent(style: PathStyle, start: Text, name: Text)
    requires
        ({
            let path = start + name;
            &&& prefix_of(style, path).0 != PrefixKind::Verbatim
            &&& names_begin(style, path) == start.len()
            &&& is_file_name(style, name)
        }),
    ensures
        parent_of(style, start + name) == Some(start),
{
    let path = start + name;
    let floor = start.len() as int;
    let end = path.len() as int;
    assert forall|i: int| floor <= i < end implies !separates(style, false, #[trigger] path[i]) by {
        assert(path[i] == name[i - floor]);
    }
    lemma_no_separator(style, false, path, floor, floor, end);
    assert(last_separator(style, false, path, floor, end) == floor - 1);
    assert(path.subrange(floor, end) =~= name);
    assert(names_end(style, false, path, floor, end) == end);
    assert(before_name(style, false, path, floor, end) == floor);
    assert(names_end(style, false, path, floor, floor) == floor);
    assert(path.take(floor) =~= start);
}

/// Where a path ends in two names, its parent ends in the first of them.
proof fn lemma_parent(style: PathStyle, above: Text, dir: Text, separator: char, name: Text)
    requires
        ({
            let path = above + dir + seq![separator] + name;
            let verbatim = prefix_of(style, path).0 == PrefixKind::Verbatim;
            let floor = names_begin(style, path);
            &&& is_file_name(style, dir)
            &&& is_file_name(style, name)
            &&& separates(style, verbatim, separator)
            &&& 0 <= floor <= above.len()
            &&& above.len() == floor || separates(style, verbatim, above.last())
        }),
    ensures
        parent_of(style, above + dir + seq![separator] + name) == Some(above + dir),
{
    let path = above + dir + seq![separator] + name;
    let verbatim = prefix_of(style, path).0 == PrefixKind::Verbatim;
    let floor = names_begin(style, path);
    let cut = (above + dir).len() as int;
    let end = path.len() as int;
    assert forall|i: int| cut + 1 <= i < end implies !separates(
        style,
        false,
        #[trigger] path[i],
    ) by {
        assert(path[i] == name[i - cut - 1]);
    }
    assert forall|i: int| above.len() <= i < cut implies !separates(
        style,
        false,
        #[trigger] path[i],
    ) by {
        assert(path[i] == dir[i - above.len()]);
    }
    lemma_no_separator(style, verbatim, path, floor, cut + 1, end);
    assert(path[cut] == separator);
    assert(last_separator(style, verbatim, path, floor, end) == cut);
    assert(path.subrange(cut + 1, end) =~= name);
    assert(names_end(style, verbatim, path, floor, end) == end);
    assert(before_name(style, verbatim, path, floor, end) == cut);
    lemma_no_separator(style, verbatim, path, floor, above.len() as int, cut);
    let at = last_separator(style, verbatim, path, floor, cut);
    if above.len() > floor {
        assert(path[above.len() - 1] == above.last());
    }
    assert(at == above.len() - 1);
    assert(path.subrange(at + 1, cut) =~= dir);
    assert(names_end(style, verbatim, path, floor, cut) == cut);
    assert(path.take(cut) =~= above + dir);
}

/// The name is not empty and has no separator in it.
spec fn is_clean(verbatim: bool, name: Text) -> bool {
    &&& name.len() > 0
    &&& forall|i: int|
        0 <= i < name.len() ==> !separates(PathStyle::Windows, verbatim, #[trigger] name[i])
}

proof fn lemma_separator_found(style: PathStyle, verbatim: bool, path: Text, from: int, end: int)
    requires
        0 <= from <= end <= path.len(),
        forall|i: int| from <= i < end ==> !separates(style, verbatim, #[trigger] path[i]),
        end < path.len() ==> separates(style, verbatim, path[end]),
    ensures
        next_separator(style, verbatim, path, from) == end,
    decreases end - from,
{
    if from < end {
        lemma_separator_found(style, verbatim, path, from + 1, end);
    }
}

proof fn lemma_next_is_first(style: PathStyle, verbatim: bool, path: Text, from: int)
    requires
        0 <= from <= path.len(),
    ensures
        ({
            let end = next_separator(style, verbatim, path, from);
            &&& from <= end <= path.len()
            &&& forall|i: int| from <= i < end ==> !separates(style, verbatim, #[trigger] path[i])
            &&& end < path.len() ==> separates(style, verbatim, path[end])
        }),
    decreases path.len() - from,
{
    if from < path.len() && !separates(style, verbatim, path[from]) {
        lemma_next_is_first(style, verbatim, path, from + 1);
    }
}

proof fn lemma_names_clean(verbatim: bool, path: Text, from: int)
    requires
        0 <= from,
    ensures
        forall|k: int|
            0 <= k < names_from(verbatim, path, from).len() ==> is_clean(
                verbatim,
                #[trigger] names_from(verbatim, path, from)[k],
            ),
    decreases path.len() - from,
{
    if from < path.len() {
        let end = next_separator(PathStyle::Windows, verbatim, path, from);
        lemma_next_is_first(PathStyle::Windows, verbatim, path, from);
        if end <= from {
            lemma_names_clean(verbatim, path, from + 1);
            assert(names_from(verbatim, path, from) == names_from(verbatim, path, from + 1));
        } else {
            let name = path.subrange(from, end);
            assert(is_clean(verbatim, name)) by {
                assert forall|i: int| 0 <= i < name.len() implies !separates(
                    PathStyle::Windows,
                    verbatim,
                    #[trigger] name[i],
                ) by {
                    assert(name[i] == path[from + i]);
                }
            }
            if end >= path.len() {
                assert(path.skip(from) =~= name);
                let all = names_from(verbatim, path, from);
                assert(all == seq![name]);
                assert forall|k: int| 0 <= k < all.len() implies is_clean(
                    verbatim,
                    #[trigger] all[k],
                ) by {
                    assert(all[k] == name);
                }
            } else {
                let rest = names_from(verbatim, path, end + 1);
                lemma_names_clean(verbatim, path, end + 1);
                let all = names_from(verbatim, path, from);
                assert(all == seq![name] + rest);
                assert forall|k: int| 0 <= k < all.len() implies is_clean(
                    verbatim,
                    #[trigger] all[k],
                ) by {
                    if k > 0 {
                        assert(all[k] == rest[k - 1]);
                    } else {
                        assert(all[k] == name);
                    }
                }
            }
        }
    }
}

/// What stands before a position does not matter for the names after it.
proof fn lemma_names_shifted(verbatim: bool, before: Text, path: Text, from: int)
    requires
        0 <= from,
    ensures
        names_from(verbatim, before + path, before.len() + from) == names_from(
            verbatim,
            path,
            from,
        ),
    decreases path.len() - from,
{
    let whole = before + path;
    let shift = before.len() as int;
    if from < path.len() {
        let end = next_separator(PathStyle::Windows, verbatim, path, from);
        lemma_next_is_first(PathStyle::Windows, verbatim, path, from);
        assert forall|i: int| shift + from <= i < shift + end implies !separates(
            PathStyle::Windows,
            verbatim,
            #[trigger] whole[i],
        ) by {
            assert(whole[i] == path[i - shift]);
        }
        lemma_separator_found(PathStyle::Windows, verbatim, whole, shift + from, shift + end);
        if end <= from {
            lemma_names_shifted(verbatim, before, path, from + 1);
        } else if end >= path.len() {
            assert(whole.skip(shift + from) =~= path.skip(from));
        } else {
            assert(whole.subrange(shift + from, shift + end) =~= path.subrange(from, end));
            lemma_names_shifted(verbatim, before, path, end + 1);
        }
    }
}

/// A separator parts the names before it from those after it.
proof fn lemma_names_parted(verbatim: bool, a: Text, separator: char, b: Text, from: int)
    requires
        0 <= from <= a.len(),
        separates(PathStyle::Windows, verbatim, separator),
    ensures
        names_from(verbatim, a + seq![separator] + b, from) == names_from(verbatim, a, from)
            + names_from(verbatim, b, 0),
    decreases a.len() - from,
{
    let head = a + seq![separator];
    let whole = head + b;
    let end = next_separator(PathStyle::Windows, verbatim, a, from);
    lemma_next_is_first(PathStyle::Windows, verbatim, a, from);
    assert forall|i: int| from <= i < end implies !separates(
        PathStyle::Windows,
        verbatim,
        #[trigger] whole[i],
    ) by {
        assert(whole[i] == a[i]);
    }
    assert(whole[end] == if end < a.len() {
        a[end]
    } else {
        separator
    });
    lemma_separator_found(PathStyle::Windows, verbatim, whole, from, end);
    lemma_names_shifted(verbatim, head, b, 0);
    let rest = names_from(verbatim, b, 0);
    if from == a.len() {
        assert(Seq::<Text>::empty() + rest =~= rest);
    } else if end <= from {
        lemma_names_parted(verbatim, a, separator, b, from + 1);
    } else if end == a.len() {
        assert(whole.subrange(from, end) =~= a.skip(from));
    } else {
        lemma_names_parted(verbatim, a, separator, b, end + 1);
        assert(whole.subrange(from, end) =~= a.subrange(from, end));
        let name = seq![a.subrange(from, end)];
        assert(name + (names_from(verbatim, a, end + 1) + rest) =~= name + names_from(
            verbatim,
            a,
            end + 1,
        ) + rest);
    }
}

proof fn lemma_name_alone(verbatim: bool, name: Text)
    requires
        is_clean(verbatim, name),
    ensures
        names_from(verbatim, name, 0) == seq![name],
{
    lemma_separator_found(PathStyle::Windows, verbatim, name, 0, name.len() as int);
    assert(name.skip(0) =~= name);
}

/// Names that are put together with backslashes are found again.
proof fn lemma_names_joined(names: Seq<Text>)
    requires
        forall|k: int| 0 <= k < names.len() ==> is_clean(true, #[trigger] names[k]),
    ensures
        names_from(true, text::joined(names, seq!['\\']), 0) == names,
    decreases names.len(),
{
    if names.len() == 1 {
        lemma_name_alone(true, names[0]);
        assert(names =~= seq![names[0]]);
    } else if names.len() > 1 {
        let init = names.drop_last();
        assert forall|k: int| 0 <= k < init.len() implies is_clean(true, #[trigger] init[k]) by {
            assert(init[k] == names[k]);
        }
        lemma_names_joined(init);
        lemma_names_parted(true, text::joined(init, seq!['\\']), '\\', names.last(), 0);
        lemma_name_alone(true, names[names.len() - 1]);
        assert(init + seq![names.last()] =~= names);
    } else {
        assert(names =~= Seq::empty());
    }
}

/// A verbatim path extended by one name.
proof fn lemma_verbatim_below(base: Text, name: Text)
    requires
        prefix_of(PathStyle::Windows, base).0 == PrefixKind::Verbatim,
        prefix_of(PathStyle::Windows, name).0 == PrefixKind::Absent,
        is_file_name(PathStyle::Windows, name),
        name != seq!['.', '.'],
    ensures
        ({
            let length = prefix_of(PathStyle::Windows, base).1;
            let rooted = separated_at(PathStyle::Windows, base, length);
            let names = names_from(
                true,
                base,
                if rooted {
                    length + 1
                } else {
                    length
                },
            );
            joined_path(PathStyle::Windows, base, name) == base.take(length) + seq!['\\']
                + text::joined(names.push(name), seq!['\\'])
        }),
{
    reveal_strlit(".");
    reveal_strlit("..");
    assert("."@ =~= seq!['.']);
    assert(".."@ =~= seq!['.', '.']);
    assert(!separates(PathStyle::Windows, false, name[0]));
    lemma_name_alone(false, name);
    let length = prefix_of(PathStyle::Windows, base).1;
    let rooted = separated_at(PathStyle::Windows, base, length);
    let names = names_from(
        true,
        base,
        if rooted {
            length + 1
        } else {
            length
        },
    );
    let one = seq![name];
    assert(one.drop_last() =~= Seq::empty());
    assert(entered_all(names, one) == names.push(name)) by {
        reveal_with_fuel(entered_all, 2);
    }
}

/// What stands before the last name of a verbatim path: its prefix and the names
/// above, each followed by a backslash.
spec fn verbatim_above(prefix: Text, names: Seq<Text>) -> Text {
    if names.len() == 0 {
        prefix + seq!['\\']
    } else {
        prefix + seq!['\\'] + text::joined(names, seq!['\\']) + seq!['\\']
    }
}

/// Two names below a prefix, with what stands before them.
proof fn lemma_verbatim_texts(prefix: Text, names: Seq<Text>, dir: Text, name: Text)
    requires
        forall|k: int| 0 <= k < names.len() ==> is_clean(true, #[trigger] names[k]),
        is_clean(true, dir),
    ensures
        ({
            let sep = seq!['\\'];
            let all = names.push(dir);
            let below = prefix + sep + text::joined(all, sep);
            let above = verbatim_above(prefix, names);
            &&& below == above + dir
            &&& prefix + sep + text::joined(all.push(name), sep) == above + dir + sep + name
            &&& names_from(true, below, prefix.len() as int + 1) == all
            &&& below.take(prefix.len() as int) == prefix
            &&& below[prefix.len() as int] == '\\'
            &&& (above + dir + sep + name)[prefix.len() as int] == '\\'
        }),
{
    let sep = seq!['\\'];
    let all = names.push(dir);
    let start = prefix + sep;
    let below = start + text::joined(all, sep);
    let above = verbatim_above(prefix, names);
    assert forall|k: int| 0 <= k < all.len() implies is_clean(true, #[trigger] all[k]) by {
        if k < names.len() {
            assert(all[k] == names[k]);
        }
    }
    lemma_names_joined(all);
    lemma_names_shifted(true, start, text::joined(all, sep), 0);
    assert(all.drop_last() =~= names);
    assert(all.push(name).drop_last() =~= all);
    assert(below =~= above + dir);
    assert(start + text::joined(all.push(name), sep) =~= below + sep + name);
    assert(below.take(prefix.len() as int) =~= prefix);
}

#[verifier::spinoff_prover]
proof fn lemma_verbatim_parent(root: Text, dir: Text, name: Text)
    requires
        is_file_name(PathStyle::Windows, dir),
        is_file_name(PathStyle::Windows, name),
        dir != seq!['.', '.'],
        name != seq!['.', '.'],
        prefix_of(PathStyle::Windows, dir).0 == PrefixKind::Absent,
        prefix_of(PathStyle::Windows, name).0 == PrefixKind::Absent,
        prefix_of(PathStyle::Windows, root).0 == PrefixKind::Verbatim,
        ({
            let below = joined_path(PathStyle::Windows, root, dir);
            &&& prefix_of(PathStyle::Windows, below) == prefix_of(PathStyle::Windows, root)
            &&& prefix_of(PathStyle::Windows, joined_path(PathStyle::Windows, below, name))
                == prefix_of(PathStyle::Windows, root)
        }),
    ensures
        ({
            let below = joined_path(PathStyle::Windows, root, dir);
            parent_of(PathStyle::Windows, joined_path(PathStyle::Windows, below, name)) == Some(
                below,
            )
        }),
{
    let style = PathStyle::Windows;
    let length = prefix_of(style, root).1;
    let below = joined_path(style, root, dir);
    let path = joined_path(style, below, name);
    let from = if separated_at(style, root, length) {
        length + 1
    } else {
        length
    };
    let names = names_from(true, root, from);
    let prefix = root.take(length);
    lemma_prefix_fits(style, root);
    lemma_verbatim_below(root, dir);
    lemma_names_clean(true, root, from);
    assert(is_clean(true, dir)) by {
        assert forall|i: int| 0 <= i < dir.len() implies !separates(
            style,
            true,
            #[trigger] dir[i],
        ) by {
            assert(!separates(style, false, dir[i]));
        }
    }
    lemma_verbatim_texts(prefix, names, dir, name);
    assert(separated_at(style, below, length));
    lemma_verbatim_below(below, name);
    let above = verbatim_above(prefix, names);
    assert(path == above + dir + seq!['\\'] + name);
    assert(separated_at(style, path, length));
    assert(names_begin(style, path) == length + 1);
    lemma_parent(style, above, dir, '\\', name);
}

/// The directory of a file in a directory below `root` is that directory, unless
/// the prefix of the root is not complete, such as a server without a share, and
/// goes on with the names that follow.
pub proof fn a_file_below_a_root_is_in_its_directory(
    style: PathStyle,
    root: Text,
    dir: Text,
    name: Text,
)
    requires
        is_file_name(style, dir),
        is_file_name(style, name),
        dir != seq!['.', '.'],
        name != seq!['.', '.'],
        prefix_of(style, dir).0 == PrefixKind::Absent,
        prefix_of(style, name).0 == PrefixKind::Absent,
        ({
            let below = joined_path(style, root, dir);
            &&& prefix_of(style, below) == prefix_of(style, root)
            &&& prefix_of(style, joined_path(style, below, name)) == prefix_of(style, root)
        }),
    ensures
        ({
            let below = joined_path(style, root, dir);
            parent_of(style, joined_path(style, below, name)) == Some(below)
        }),
{
    if prefix_of(style, root).0 == PrefixKind::Verbatim {
        lemma_verbatim_parent(root, dir, name);
    } else {
        lemma_plain_parent(style, root, dir, name);
    }
}

proof fn lemma_plain_parent(style: PathStyle, root: Text, dir: Text, name: Text)
    requires
        is_file_name(style, dir),
        is_file_name(style, name),
        prefix_of(style, dir).0 == PrefixKind::Absent,
        prefix_of(style, name).0 == PrefixKind::Absent,
        prefix_of(style, root).0 != PrefixKind::Verbatim,
        ({
            let below = joined_path(style, root, dir);
            &&& prefix_of(style, below) == prefix_of(style, root)
            &&& prefix_of(style, joined_path(style, below, name)) == prefix_of(style, root)
        }),
    ensures
        ({
            let below = joined_path(style, root, dir);
            parent_of(style, joined_path(style, below, name)) == Some(below)
        }),
{
    let (kind, length) = prefix_of(style, root);
    let separator = main_separator(style);
    let below = joined_path(style, root, dir);
    let path = joined_path(style, below, name);
    assert(!separated_at(style, dir, 0)) by {
        assert(!separates(style, false, dir[0]));
    }
    assert(!separated_at(style, name, 0)) by {
        assert(!separates(style, false, name[0]));
    }
    let above = if root.len() == 0 || separated_at(style, root, root.len() - 1) || kind
        == PrefixKind::Drive && length == root.len() {
        root
    } else {
        root + seq![separator]
    };
    assert(below =~= above + dir);
    assert(below.last() == dir.last());
    assert(!separates(style, false, dir[dir.len() - 1]));
    lemma_prefix_fits(style, root);
    assert(path =~= above + dir + seq![separator] + name);
    if separated_at(style, path, length) && length == above.len() {
        assert(path[length] == dir[0]);
        assert(!separates(style, false, dir[0]));
    }
    if starts_with_dot(style, path) && length == above.len() {
        assert(path[length] == dir[0]);
        if dir.len() == 1 {
            assert(dir =~= seq!['.']);
        } else {
            assert(path[length + 1] == dir[1]);
            assert(!separates(style, false, dir[1]));
        }
    }
    lemma_parent(style, above, dir, separator, name);
}

proof fn lemma_next_separator(style: PathStyle, verbatim: bool, path: Text, from: int)
    requires
        0 <= from <= path.len(),
    ensures
        from <= next_separator(style, verbatim, path, from) <= path.len(),
    decreases path.len() - from,
{
    if from < path.len() && !separates(style, verbatim, path[from]) {
        lemma_next_separator(style, verbatim, path, from + 1);
    }
}

/// A prefix is part of its path.
proof fn lemma_prefix_fits(style: PathStyle, path: Text)
    ensures
        0 <= prefix_of(style, path).1 <= path.len(),
{
    assert forall|verbatim: bool, from: int| 0 <= from <= path.len() implies from
        <= #[trigger] next_separator(PathStyle::Windows, verbatim, path, from) <= path.len() by {
        lemma_next_separator(PathStyle::Windows, verbatim, path, from);
    }
}

} // verus!
