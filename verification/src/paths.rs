//! Paths as the parts that they are made of.
use vstd::prelude::*;
use vstd::string::*;

use crate::duplicate::{lemma_views_push, views, Duplicate};
use crate::text::{chars_of, first_at, join, joined, pieces, same, split_on};

verus! {

/// A part of a path: its root, the current directory at its start, a step up, or a name.
#[derive(Debug)]
pub enum PathPart {
    Root,
    Current,
    Up,
    Name(String),
}

#[verifier::ext_equal]
pub enum PartView {
    Root,
    Current,
    Up,
    Name(Seq<char>),
}

impl View for PathPart {
    type V = PartView;

    open spec fn view(&self) -> PartView {
        match self {
            PathPart::Root => PartView::Root,
            PathPart::Current => PartView::Current,
            PathPart::Up => PartView::Up,
            PathPart::Name(name) => PartView::Name(name@),
        }
    }
}

impl Duplicate for PathPart {
    fn duplicate(&self) -> (result: PathPart) {
        match self {
            PathPart::Root => PathPart::Root,
            PathPart::Current => PathPart::Current,
            PathPart::Up => PathPart::Up,
            PathPart::Name(name) => PathPart::Name(name.clone()),
        }
    }
}

/// The parts that pieces between slashes stand for: nothing for an empty piece, and for a dot only at
/// the very start.
pub open spec fn parts_of_pieces(list: Seq<Seq<char>>) -> Seq<PartView>
    decreases list.len(),
{
    if list.len() == 0 {
        Seq::empty()
    } else {
        let before = parts_of_pieces(list.drop_last());
        let piece = list.last();
        if piece.len() == 0 {
            before
        } else if piece == "."@ {
            if list.len() == 1 {
                before.push(PartView::Current)
            } else {
                before
            }
        } else if piece == ".."@ {
            before.push(PartView::Up)
        } else {
            before.push(PartView::Name(piece))
        }
    }
}

/// The parts of a path.
pub open spec fn parts(path: Seq<char>) -> Seq<PartView> {
    let rest = parts_of_pieces(pieces(path, '/'));
    if path.len() > 0 && path[0] == '/' {
        seq![PartView::Root] + rest
    } else {
        rest
    }
}

pub fn path_parts(path: &str) -> (result: Vec<PathPart>)
    ensures
        views(result@) == parts(path@),
{
    let chars = chars_of(path);
    let list = split_on(path, '/');
    let ghost all = pieces(path@, '/');
    let mut result: Vec<PathPart> = Vec::new();
    let ghost head = if path@.len() > 0 && path@[0] == '/' {
        seq![PartView::Root]
    } else {
        Seq::empty()
    };
    if chars.len() > 0 && chars[0] == '/' {
        result.push(PathPart::Root);
    }
    let mut i: usize = 0;
    proof {
        assert(views(result@) =~= head + parts_of_pieces(all.take(0)));
    }
    while i < list.len()
        invariant
            i <= list.len(),
            views(list@) == all,
            views(result@) == head + parts_of_pieces(all.take(i as int)),
        decreases list.len() - i,
    {
        let ghost done = parts_of_pieces(all.take(i as int));
        proof {
            assert(all.take(i + 1).drop_last() =~= all.take(i as int));
            assert(all.take(i + 1).last() == list@[i as int]@);
        }
        let piece = list[i].as_str();
        if chars_of(piece).len() == 0 {
        } else if same(piece, ".") {
            if i == 0 {
                proof {
                    lemma_views_push(result@, PathPart::Current);
                    assert((head + done).push(PartView::Current) =~= head + done.push(
                        PartView::Current,
                    ));
                }
                result.push(PathPart::Current);
            }
        } else if same(piece, "..") {
            proof {
                lemma_views_push(result@, PathPart::Up);
                assert((head + done).push(PartView::Up) =~= head + done.push(PartView::Up));
            }
            result.push(PathPart::Up);
        } else {
            let part = PathPart::Name(list[i].clone());
            proof {
                lemma_views_push(result@, part);
                assert((head + done).push(part@) =~= head + done.push(part@));
            }
            result.push(part);
        }
        i += 1;
    }
    proof {
        assert(all.take(all.len() as int) =~= all);
        assert(head + parts_of_pieces(all) =~= parts(path@));
    }
    result
}

/// The names among parts.
pub open spec fn names(list: Seq<PartView>) -> Seq<Seq<char>>
    decreases list.len(),
{
    if list.len() == 0 {
        Seq::empty()
    } else {
        match list.last() {
            PartView::Name(name) => names(list.drop_last()).push(name),
            _ => names(list.drop_last()),
        }
    }
}

pub fn part_names(list: &Vec<PathPart>, count: usize) -> (result: Vec<String>)
    requires
        count <= list@.len(),
    ensures
        views(result@) == names(views(list@).take(count as int)),
{
    let ghost all = views(list@);
    let mut result: Vec<String> = Vec::new();
    let mut i: usize = 0;
    proof {
        assert(views(result@) =~= names(all.take(0)));
    }
    while i < count
        invariant
            i <= count <= list@.len(),
            all == views(list@),
            views(result@) == names(all.take(i as int)),
        decreases count - i,
    {
        proof {
            assert(all.take(i + 1).drop_last() =~= all.take(i as int));
            assert(all.take(i + 1).last() == list@[i as int]@);
        }
        match &list[i] {
            PathPart::Name(name) => {
                let name = name.clone();
                proof {
                    lemma_views_push(result@, name);
                }
                result.push(name);
            },
            _ => {},
        }
        i += 1;
    }
    result
}

/// A path written with slashes between its names, whatever else it held.
pub open spec fn slashed(path: Seq<char>) -> Seq<char> {
    joined(names(parts(path)), "/"@)
}

pub fn slash_path(path: &str) -> (result: String)
    ensures
        result@ == slashed(path@),
{
    let list = path_parts(path);
    let found = part_names(&list, list.len());
    proof {
        assert(views(list@).take(list@.len() as int) =~= views(list@));
    }
    join(&found, "/")
}

/// The parts of the directory that a path is in.
pub open spec fn parent(list: Seq<PartView>) -> Option<Seq<PartView>> {
    if list.len() == 0 || list.last() is Root {
        None
    } else {
        Some(list.drop_last())
    }
}

pub fn same_part(a: &PathPart, b: &PathPart) -> (result: bool)
    ensures
        result == (a@ == b@),
{
    match (a, b) {
        (PathPart::Root, PathPart::Root) => true,
        (PathPart::Current, PathPart::Current) => true,
        (PathPart::Up, PathPart::Up) => true,
        (PathPart::Name(a), PathPart::Name(b)) => same(a.as_str(), b.as_str()),
        _ => false,
    }
}

fn same_front(a: &Vec<PathPart>, b: &Vec<PathPart>, count: usize) -> (result: bool)
    requires
        count <= a@.len(),
        count <= b@.len(),
    ensures
        result == (views(a@).take(count as int) == views(b@).take(count as int)),
{
    let ghost (x, y) = (views(a@), views(b@));
    let mut i: usize = 0;
    while i < count
        invariant
            i <= count,
            count <= a@.len(),
            count <= b@.len(),
            x == views(a@),
            y == views(b@),
            forall|k: int| 0 <= k < i ==> #[trigger] x[k] == y[k],
        decreases count - i,
    {
        proof {
            assert(x[i as int] == a@[i as int]@);
            assert(y[i as int] == b@[i as int]@);
        }
        if !same_part(&a[i], &b[i]) {
            assert(x.take(count as int)[i as int] != y.take(count as int)[i as int]);
            return false;
        }
        i += 1;
    }
    assert(x.take(count as int) =~= y.take(count as int));
    true
}

/// Whether two paths are the same, part by part.
pub fn same_path(a: &str, b: &str) -> (result: bool)
    ensures
        result == (parts(a@) == parts(b@)),
{
    let x = path_parts(a);
    let y = path_parts(b);
    proof {
        assert(views(x@).take(x@.len() as int) =~= views(x@));
        assert(views(y@).take(y@.len() as int) =~= views(y@));
    }
    x.len() == y.len() && same_front(&x, &y, x.len())
}

/// Whether two remote files are in the same directory.
pub fn same_remote_directory(left: &str, right: &str) -> (result: bool)
    ensures
        result == (parent(parts(left@)) == parent(parts(right@))),
{
    let x = path_parts(left);
    let y = path_parts(right);
    let ghost (a, b) = (parts(left@), parts(right@));
    let left_parent: bool = has_parent(&x);
    let right_parent: bool = has_parent(&y);
    if left_parent && right_parent {
        let count: usize = x.len() - 1;
        proof {
            assert(a == views(x@) && b == views(y@));
            assert(a.len() == x@.len() && b.len() == y@.len());
            assert(a.drop_last() =~= a.take(a.len() - 1));
            assert(b.drop_last() =~= b.take(b.len() - 1));
            assert(parent(a) == Some(a.drop_last()));
            assert(parent(b) == Some(b.drop_last()));
            if a.len() != b.len() {
                assert(a.drop_last().len() != b.drop_last().len());
            }
        }
        x.len() == y.len() && same_front(&x, &y, count)
    } else {
        !left_parent && !right_parent
    }
}

fn has_parent(list: &Vec<PathPart>) -> (result: bool)
    ensures
        result == (parent(views(list@)) is Some),
{
    if list.len() == 0 {
        return false;
    }
    let last: usize = list.len() - 1;
    proof {
        assert(views(list@).last() == list@[last as int]@);
    }
    match &list[last] {
        PathPart::Root => false,
        _ => true,
    }
}

/// Whether a path leads down from where it starts, by names alone.
pub open spec fn is_safe(path: Seq<char>) -> bool {
    &&& path.len() > 0
    &&& !path.contains('\\')
    &&& forall|i: int| 0 <= i < parts(path).len() ==> (#[trigger] parts(path)[i]) is Name
}

pub fn safe_relative(path: &str) -> (result: bool)
    ensures
        result == is_safe(path@),
{
    let chars = chars_of(path);
    if chars.len() == 0 {
        return false;
    }
    let mut i: usize = 0;
    while i < chars.len()
        invariant
            i <= chars.len(),
            chars@ == path@,
            forall|k: int| 0 <= k < i ==> chars@[k] != '\\',
        decreases chars.len() - i,
    {
        if chars[i] == '\\' {
            assert(path@.contains('\\'));
            return false;
        }
        i += 1;
    }
    let list = path_parts(path);
    let mut j: usize = 0;
    while j < list.len()
        invariant
            j <= list.len(),
            views(list@) == parts(path@),
            forall|k: int| 0 <= k < j ==> (#[trigger] parts(path@)[k]) is Name,
        decreases list.len() - j,
    {
        proof {
            assert(parts(path@)[j as int] == list@[j as int]@);
        }
        match &list[j] {
            PathPart::Name(_) => {},
            _ => {
                assert(!(parts(path@)[j as int] is Name));
                return false;
            },
        }
        j += 1;
    }
    true
}

proof fn lemma_all_named(list: Seq<PartView>)
    requires
        forall|i: int| 0 <= i < list.len() ==> (#[trigger] list[i]) is Name,
    ensures
        names(list).len() == list.len(),
        forall|i: int| 0 <= i < list.len() ==> #[trigger] list[i] == PartView::Name(names(list)[i]),
    decreases list.len(),
{
    if list.len() > 0 {
        let rest = list.drop_last();
        assert forall|i: int| 0 <= i < rest.len() implies (#[trigger] rest[i]) is Name by {
            assert(rest[i] == list[i]);
        }
        lemma_all_named(rest);
        assert(list[list.len() - 1] is Name);
        assert forall|i: int| 0 <= i < list.len() implies #[trigger] list[i] == PartView::Name(
            names(list)[i],
        ) by {
            if i < rest.len() {
                assert(rest[i] == list[i]);
            }
        }
    }
}

/// A safe path goes nowhere but down: it has neither root nor steps up, and it is its names.
pub proof fn law_safe_paths_stay_inside(path: Seq<char>)
    requires
        is_safe(path),
    ensures
        !parts(path).contains(PartView::Root),
        !parts(path).contains(PartView::Up),
        !parts(path).contains(PartView::Current),
        parts(path) == names(parts(path)).map_values(|name: Seq<char>| PartView::Name(name)),
{
    let list = parts(path);
    lemma_all_named(list);
    assert(list =~= names(list).map_values(|name: Seq<char>| PartView::Name(name)));
    if list.contains(PartView::Root) {
        let i = list.index_of(PartView::Root);
        assert(list[i] is Name);
    }
    if list.contains(PartView::Up) {
        let i = list.index_of(PartView::Up);
        assert(list[i] is Name);
    }
    if list.contains(PartView::Current) {
        let i = list.index_of(PartView::Current);
        assert(list[i] is Name);
    }
}

/// Whether one of the texts has a character.
spec fn one_has(list: Seq<Seq<char>>, c: char) -> bool {
    exists|i: int| 0 <= i < list.len() && (#[trigger] list[i]).contains(c)
}

proof fn lemma_pieces_have(text: Seq<char>, c: char)
    requires
        c != '/',
    ensures
        one_has(pieces(text, '/'), c) == text.contains(c),
        pieces(text, '/').len() > 0,
        text.len() > 0 && text[0] != '/' ==> pieces(text, '/')[0].len() > 0,
    decreases text.len(),
{
    let list = pieces(text, '/');
    if exists|at: int| first_at(text, '/', at) {
        let at = choose|at: int| first_at(text, '/', at);
        let (front, rest) = (text.take(at), text.skip(at + 1));
        lemma_pieces_have(rest, c);
        assert(list[0] == front);
        if text.contains(c) {
            let k = text.index_of(c);
            if k < at {
                assert(front[k] == c);
                assert(list[0].contains(c));
            } else {
                assert(rest[k - at - 1] == c);
                let j = choose|j: int|
                    0 <= j < pieces(rest, '/').len() && (#[trigger] pieces(rest, '/')[j]).contains(c);
                assert(list[j + 1] == pieces(rest, '/')[j]);
            }
        }
        if one_has(list, c) {
            let j = choose|j: int| 0 <= j < list.len() && (#[trigger] list[j]).contains(c);
            if j == 0 {
                let k = front.index_of(c);
                assert(text[k] == c);
            } else {
                assert(pieces(rest, '/')[j - 1] == list[j]);
                let k = rest.index_of(c);
                assert(text[k + at + 1] == c);
            }
        }
    } else {
        assert(list[0] == text);
    }
}

proof fn lemma_parts_have(list: Seq<Seq<char>>, c: char)
    requires
        c != '.',
    ensures
        one_has(names(parts_of_pieces(list)), c) == one_has(list, c),
        list.len() > 0 && list[0].len() > 0 ==> parts_of_pieces(list).len() > 0,
    decreases list.len(),
{
    reveal_strlit(".");
    reveal_strlit("..");
    if list.len() > 0 {
        let rest = list.drop_last();
        let piece = list.last();
        lemma_parts_have(rest, c);
        let (found, before) = (parts_of_pieces(list), parts_of_pieces(rest));
        if found.len() > before.len() {
            assert(found.drop_last() =~= before);
        }
        if one_has(list, c) {
            let j = choose|j: int| 0 <= j < list.len() && (#[trigger] list[j]).contains(c);
            if j < rest.len() {
                assert(rest[j] == list[j]);
                let k = choose|k: int|
                    0 <= k < names(before).len() && (#[trigger] names(before)[k]).contains(c);
                assert(names(found)[k] == names(before)[k]);
            } else {
                assert(names(found)[names(found).len() - 1] == piece);
            }
        }
        if one_has(names(found), c) {
            let k = choose|k: int|
                0 <= k < names(found).len() && (#[trigger] names(found)[k]).contains(c);
            if k < names(before).len() {
                assert(names(before)[k] == names(found)[k]);
                let j = choose|j: int| 0 <= j < rest.len() && (#[trigger] rest[j]).contains(c);
                assert(list[j] == rest[j]);
            } else {
                assert(list[list.len() - 1].contains(c));
            }
        }
    }
}

/// Whether a path is safe is told by its parts: two ways to write the same path are both safe, or
/// neither is.
pub proof fn law_safety_is_of_the_parts(a: Seq<char>, b: Seq<char>)
    requires
        parts(a) == parts(b),
    ensures
        is_safe(a) == is_safe(b),
{
    if is_safe(a) {
        lemma_safe_like(a, b);
    }
    if is_safe(b) {
        lemma_safe_like(b, a);
    }
}

proof fn lemma_safe_like(a: Seq<char>, b: Seq<char>)
    requires
        parts(a) == parts(b),
        is_safe(a),
    ensures
        is_safe(b),
{
    lemma_pieces_have(a, '\\');
    lemma_pieces_have(b, '\\');
    lemma_parts_have(pieces(a, '/'), '\\');
    lemma_parts_have(pieces(b, '/'), '\\');
    if a[0] == '/' {
        assert(parts(a)[0] is Root);
    }
    assert(parts(a).len() > 0);
    if b.len() == 0 {
        assert forall|at: int| !first_at(b, '/', at) by {}
        assert(pieces(b, '/') == seq![b]);
        assert(parts_of_pieces(seq![b].drop_last()).len() == 0);
        assert(parts_of_pieces(seq![b]).len() == 0);
    } else if b[0] == '/' {
        assert(parts(b)[0] is Root);
        assert(parts(a)[0] is Name);
    }
}

/// Whether a text can be the name of one directory: it is not empty, not a dot or two, and without
/// slashes of either kind.
pub open spec fn is_plain_name(text: Seq<char>) -> bool {
    text.len() > 0 && text != "."@ && text != ".."@ && !text.contains('/') && !text.contains('\\')
}

pub fn plain_name(text: &str) -> (result: bool)
    ensures
        result == is_plain_name(text@),
{
    let chars = chars_of(text);
    if chars.len() == 0 || same(text, ".") || same(text, "..") {
        return false;
    }
    let mut i: usize = 0;
    while i < chars.len()
        invariant
            i <= chars.len(),
            chars@ == text@,
            forall|k: int| 0 <= k < i ==> chars@[k] != '/' && chars@[k] != '\\',
        decreases chars.len() - i,
    {
        if chars[i] == '/' || chars[i] == '\\' {
            assert(text@.contains('/') || text@.contains('\\'));
            return false;
        }
        i += 1;
    }
    true
}

} // verus!
