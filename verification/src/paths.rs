//! Unix paths as text: joining, parents, file names and lexical normalisation.
use vstd::prelude::*;

use crate::text::{chars_of, same_text, views};

verus! {

/// One component of a path.
pub enum PathPart {
    /// The leading `/`.
    Root,
    /// A leading `.`.
    Current,
    /// A `..`.
    Parent,
    /// An ordinary name.
    Name(String),
}

/// A path component with its name as characters.
pub enum PathPartView {
    /// The leading `/`.
    Root,
    /// A leading `.`.
    Current,
    /// A `..`.
    Parent,
    /// An ordinary name.
    Name(Seq<char>),
}

impl View for PathPart {
    type V = PathPartView;

    open spec fn view(&self) -> PathPartView {
        match self {
            PathPart::Root => PathPartView::Root,
            PathPart::Current => PathPartView::Current,
            PathPart::Parent => PathPartView::Parent,
            PathPart::Name(name) => PathPartView::Name(name@),
        }
    }
}

/// A path without its trailing separators and trailing `.` segments.
pub open spec fn trimmed(path: Seq<char>) -> Seq<char>
    decreases path.len(),
{
    if path.len() > 1 && path.last() == '/' {
        trimmed(path.drop_last())
    } else if path.len() > 1 && path.last() == '.' && path[path.len() - 2] == '/' {
        trimmed(path.drop_last())
    } else {
        path
    }
}

/// Where the text behind the last separator starts.
pub open spec fn segment_start(path: Seq<char>) -> int
    decreases path.len(),
{
    if path.len() == 0 {
        0
    } else if path.last() == '/' {
        path.len() as int
    } else {
        segment_start(path.drop_last())
    }
}

/// The directory that holds the path: none for the root and for the empty path.
pub open spec fn parent_of(path: Seq<char>) -> Option<Seq<char>> {
    let text = trimmed(path);
    if text.len() == 0 || text == seq!['/'] {
        None
    } else {
        Some(trimmed(text.take(segment_start(text))))
    }
}

/// The last component of the path, when it is an ordinary name.
pub open spec fn file_name_of(path: Seq<char>) -> Option<Seq<char>> {
    let text = trimmed(path);
    let name = text.skip(segment_start(text));
    if name.len() == 0 || name == seq!['.'] || name == seq!['.', '.'] {
        None
    } else {
        Some(name)
    }
}

/// A path below a base; an absolute one stands for itself.
pub open spec fn joined(base: Seq<char>, child: Seq<char>) -> Seq<char> {
    if child.len() > 0 && child[0] == '/' {
        child
    } else if base.len() == 0 || base.last() == '/' {
        base + child
    } else {
        base + seq!['/'] + child
    }
}

/// The path with its last component replaced.
pub open spec fn with_name(path: Seq<char>, name: Seq<char>) -> Seq<char> {
    match (file_name_of(path), parent_of(path)) {
        (Some(_), Some(parent)) => joined(parent, name),
        _ => joined(path, name),
    }
}

/// The length of a file name without its extension: up to the last dot, unless
/// that dot is the first character or there is none.
pub open spec fn stem_len(name: Seq<char>) -> int {
    stem_len_within(name, name)
}

/// The length of the stem of `name`, looking for the dot inside the prefix `seen`.
pub open spec fn stem_len_within(name: Seq<char>, seen: Seq<char>) -> int
    decreases seen.len(),
{
    if seen.len() <= 1 {
        name.len() as int
    } else if seen.last() == '.' {
        seen.len() - 1
    } else {
        stem_len_within(name, seen.drop_last())
    }
}

/// The path with the extension of its file name replaced; a path without a file
/// name is left alone.
pub open spec fn with_suffix(path: Seq<char>, extension: Seq<char>) -> Seq<char> {
    match file_name_of(path) {
        Some(name) => {
            let text = trimmed(path);
            text.take(segment_start(text) + stem_len(name)) + seq!['.'] + extension
        },
        None => path,
    }
}

/// A segment between separators as a component.
pub open spec fn part_of(segment: Seq<char>) -> PathPartView {
    if segment == seq!['.'] {
        PathPartView::Current
    } else if segment == seq!['.', '.'] {
        PathPartView::Parent
    } else {
        PathPartView::Name(segment)
    }
}

/// The components of a path: empty segments and `.` behind a separator are dropped.
pub open spec fn parts_of(path: Seq<char>) -> Seq<PathPartView>
    decreases path.len(),
    via parts_of_decreases
{
    let start = segment_start(path);
    let segment = path.skip(start);
    if path.len() == 0 {
        Seq::empty()
    } else if start == 0 {
        seq![part_of(segment)]
    } else {
        let before = if start == 1 {
            seq![PathPartView::Root]
        } else {
            parts_of(path.take(start - 1))
        };
        if segment.len() == 0 || segment == seq!['.'] {
            before
        } else {
            before.push(part_of(segment))
        }
    }
}

#[via_fn]
proof fn parts_of_decreases(path: Seq<char>) {
    lemma_segment_start(path);
}

/// The text of one component.
pub open spec fn part_text(part: PathPartView) -> Seq<char> {
    match part {
        PathPartView::Root => seq!['/'],
        PathPartView::Current => seq!['.'],
        PathPartView::Parent => seq!['.', '.'],
        PathPartView::Name(name) => name,
    }
}

/// Components as a path.
pub open spec fn path_text(parts: Seq<PathPartView>) -> Seq<char>
    decreases parts.len(),
{
    if parts.len() == 0 {
        Seq::empty()
    } else {
        joined(path_text(parts.drop_last()), part_text(parts.last()))
    }
}

/// Whether a `..` behind these components has nothing to cancel and stays.
pub open spec fn preserves_parent(parts: Seq<PathPartView>) -> bool {
    parts.len() == 0 || parts.last() == PathPartView::Parent
}

/// Components without `.`, and with each `..` cancelled against the name before it.
pub open spec fn normal_parts(parts: Seq<PathPartView>) -> Seq<PathPartView>
    decreases parts.len(),
{
    if parts.len() == 0 {
        Seq::empty()
    } else {
        let before = normal_parts(parts.drop_last());
        match parts.last() {
            PathPartView::Current => before,
            PathPartView::Parent => if preserves_parent(before) {
                before.push(PathPartView::Parent)
            } else if before.last() == PathPartView::Root {
                before
            } else {
                before.drop_last()
            },
            part => before.push(part),
        }
    }
}

/// The path with `.` and `..` resolved in its text.
pub open spec fn normalized(path: Seq<char>) -> Seq<char> {
    path_text(normal_parts(parts_of(path)))
}

/// The executable of a manifest: an absolute entrypoint as it is, another one
/// below the directory of the manifest, normalised.
pub open spec fn manifest_entry(manifest_path: Seq<char>, entrypoint: Seq<char>) -> Seq<char> {
    if entrypoint.len() > 0 && entrypoint[0] == '/' {
        entrypoint
    } else {
        let directory = match parent_of(manifest_path) {
            Some(parent) => parent,
            None => seq!['.'],
        };
        normalized(joined(directory, entrypoint))
    }
}

proof fn lemma_segment_start(path: Seq<char>)
    ensures
        0 <= segment_start(path) <= path.len(),
        segment_start(path) > 0 ==> path[segment_start(path) - 1] == '/',
        forall|i: int| segment_start(path) <= i < path.len() ==> path[i] != '/',
    decreases path.len(),
{
    if path.len() > 0 && path.last() != '/' {
        lemma_segment_start(path.drop_last());
        assert forall|i: int| segment_start(path) <= i < path.len() implies path[i] != '/' by {
            if i < path.len() - 1 {
                assert(path[i] == path.drop_last()[i]);
            }
        }
    }
}

fn trimmed_end(chars: &Vec<char>, end: usize) -> (trimmed_to: usize)
    requires
        end <= chars@.len(),
    ensures
        trimmed_to <= end,
        chars@.take(trimmed_to as int) == trimmed(chars@.take(end as int)),
{
    let mut at: usize = end;
    while at > 1 && (chars[at - 1] == '/' || (chars[at - 1] == '.' && chars[at - 2] == '/'))
        invariant
            at <= end <= chars@.len(),
            trimmed(chars@.take(at as int)) == trimmed(chars@.take(end as int)),
        decreases at,
    {
        assert(chars@.take(at as int).drop_last() =~= chars@.take(at - 1));
        at = at - 1;
    }
    at
}

fn segment_from(chars: &Vec<char>, end: usize) -> (start: usize)
    requires
        end <= chars@.len(),
    ensures
        start <= end,
        start == segment_start(chars@.take(end as int)),
{
    let mut at: usize = end;
    while at > 0 && chars[at - 1] != '/'
        invariant
            at <= end <= chars@.len(),
            segment_start(chars@.take(at as int)) == segment_start(chars@.take(end as int)),
        decreases at,
    {
        assert(chars@.take(at as int).drop_last() =~= chars@.take(at - 1));
        at = at - 1;
    }
    at
}

/// The directory that holds a path.
pub fn parent_path(path: &str) -> (parent: Option<String>)
    ensures
        match parent {
            Some(text) => parent_of(path@) == Some(text@),
            None => parent_of(path@) is None,
        },
{
    let chars: Vec<char> = chars_of(path);
    assert(chars@.take(chars@.len() as int) =~= chars@);
    let end: usize = trimmed_end(&chars, chars.len());
    if end == 0 || (end == 1 && chars[0] == '/') {
        assert(end == 1 ==> chars@.take(1) =~= seq!['/']);
        return None;
    }
    let start: usize = segment_from(&chars, end);
    assert(chars@.take(end as int).take(start as int) =~= chars@.take(start as int));
    let stop: usize = trimmed_end(&chars, start);
    assert(end == 1 ==> chars@.take(1)[0] != '/');
    assert(path@.subrange(0, stop as int) =~= chars@.take(stop as int));
    Some(path.substring_char(0, stop).to_owned())
}

/// The last component of a path, when it is an ordinary name.
pub fn path_file_name(path: &str) -> (name: Option<String>)
    ensures
        match name {
            Some(text) => file_name_of(path@) == Some(text@),
            None => file_name_of(path@) is None,
        },
{
    let chars: Vec<char> = chars_of(path);
    assert(chars@.take(chars@.len() as int) =~= chars@);
    let end: usize = trimmed_end(&chars, chars.len());
    let start: usize = segment_from(&chars, end);
    let name: &str = path.substring_char(start, end);
    assert(name@ =~= chars@.take(end as int).skip(start as int));
    proof {
        reveal_strlit(".");
        reveal_strlit("..");
        assert("."@ =~= seq!['.']);
        assert(".."@ =~= seq!['.', '.']);
    }
    if end == start || same_text(name, ".") || same_text(name, "..") {
        None
    } else {
        Some(name.to_owned())
    }
}

/// A path below a base.
pub fn join_path(base: &str, child: &str) -> (path: String)
    ensures
        path@ == joined(base@, child@),
{
    let chars: Vec<char> = chars_of(base);
    let below: Vec<char> = chars_of(child);
    if below.len() > 0 && below[0] == '/' {
        return child.to_owned();
    }
    let mut path: String = base.to_owned();
    if chars.len() > 0 && chars[chars.len() - 1] != '/' {
        proof {
            reveal_strlit("/");
            assert("/"@ =~= seq!['/']);
        }
        path.append("/");
    }
    path.append(child);
    path
}

/// The path with its last component replaced.
pub fn path_with_name(path: &str, name: &str) -> (renamed: String)
    ensures
        renamed@ == with_name(path@, name@),
{
    let has_name: bool = path_file_name(path).is_some();
    match parent_path(path) {
        Some(parent) => if has_name {
            join_path(parent.as_str(), name)
        } else {
            join_path(path, name)
        },
        None => join_path(path, name),
    }
}

/// The path with the extension of its file name replaced.
pub fn path_with_extension(path: &str, extension: &str) -> (renamed: String)
    ensures
        renamed@ == with_suffix(path@, extension@),
{
    let name: String = match path_file_name(path) {
        Some(name) => name,
        None => {
            return path.to_owned();
        },
    };
    let chars: Vec<char> = chars_of(path);
    assert(chars@.take(chars@.len() as int) =~= chars@);
    let end: usize = trimmed_end(&chars, chars.len());
    let start: usize = segment_from(&chars, end);
    let letters: Vec<char> = chars_of(name.as_str());
    let mut seen: usize = letters.len();
    assert(letters@.take(letters@.len() as int) =~= letters@);
    while seen > 1 && letters[seen - 1] != '.'
        invariant
            seen <= letters@.len(),
            stem_len_within(letters@, letters@.take(seen as int)) == stem_len(letters@),
        decreases seen,
    {
        assert(letters@.take(seen as int).drop_last() =~= letters@.take(seen - 1));
        seen = seen - 1;
    }
    let stem: usize = if seen > 1 {
        seen - 1
    } else {
        letters.len()
    };
    assert(stem == stem_len(letters@));
    assert(letters@ =~= chars@.take(end as int).skip(start as int));
    let mut renamed: String = path.substring_char(0, start + stem).to_owned();
    assert(renamed@ =~= chars@.take(end as int).take(start + stem));
    proof {
        reveal_strlit(".");
        assert("."@ =~= seq!['.']);
    }
    renamed.append(".");
    renamed.append(extension);
    renamed
}

fn part_of_segment(segment: &str) -> (part: PathPart)
    ensures
        part@ == part_of(segment@),
{
    proof {
        reveal_strlit(".");
        reveal_strlit("..");
        assert("."@ =~= seq!['.']);
        assert(".."@ =~= seq!['.', '.']);
    }
    if same_text(segment, ".") {
        PathPart::Current
    } else if same_text(segment, "..") {
        PathPart::Parent
    } else {
        PathPart::Name(segment.to_owned())
    }
}

fn parts_up_to(path: &str, chars: &Vec<char>, end: usize) -> (parts: Vec<PathPart>)
    requires
        chars@ == path@,
        end <= chars@.len(),
    ensures
        views(parts@) == parts_of(chars@.take(end as int)),
    decreases end,
{
    let ghost text = chars@.take(end as int);
    if end == 0 {
        let parts: Vec<PathPart> = Vec::new();
        assert(views(parts@) =~= parts_of(text));
        return parts;
    }
    let start: usize = segment_from(chars, end);
    let segment: &str = path.substring_char(start, end);
    assert(segment@ =~= text.skip(start as int));
    if start == 0 {
        let mut parts: Vec<PathPart> = Vec::new();
        parts.push(part_of_segment(segment));
        assert(views(parts@) =~= parts_of(text));
        return parts;
    }
    let mut parts: Vec<PathPart> = if start == 1 {
        let mut root: Vec<PathPart> = Vec::new();
        root.push(PathPart::Root);
        root
    } else {
        assert(text.take(start - 1) =~= chars@.take(start - 1));
        parts_up_to(path, chars, start - 1)
    };
    let ghost before = views(parts@);
    assert(start == 1 ==> before =~= seq![PathPartView::Root]);
    proof {
        reveal_strlit(".");
        assert("."@ =~= seq!['.']);
    }
    if start == end || same_text(segment, ".") {
        return parts;
    }
    parts.push(part_of_segment(segment));
    assert(views(parts@) =~= before.push(part_of(segment@)));
    parts
}

/// The components of a path.
pub fn path_components(path: &str) -> (parts: Vec<PathPart>)
    ensures
        views(parts@) == parts_of(path@),
{
    let chars: Vec<char> = chars_of(path);
    assert(chars@.take(chars@.len() as int) =~= path@);
    parts_up_to(path, &chars, chars.len())
}

/// Whether a `..` behind these components stays.
pub fn should_preserve_parent_dir(parts: &[PathPart]) -> (preserve: bool)
    ensures
        preserve == preserves_parent(views(parts@)),
{
    if parts.len() == 0 {
        return true;
    }
    let last: usize = parts.len() - 1;
    assert(views(parts@).last() == parts@[last as int]@);
    matches!(parts[last], PathPart::Parent)
}

/// The path with `.` and `..` resolved in its text.
pub fn normalize_path(path: &str) -> (normal: String)
    ensures
        normal@ == normalized(path@),
{
    let parts: Vec<PathPart> = path_components(path);
    let ghost all = views(parts@);
    let mut kept: Vec<PathPart> = Vec::new();
    let mut i: usize = 0;
    assert(views(kept@) =~= normal_parts(all.take(0)));
    while i < parts.len()
        invariant
            i <= parts@.len(),
            all == views(parts@),
            views(kept@) == normal_parts(all.take(i as int)),
        decreases parts@.len() - i,
    {
        let ghost before = views(kept@);
        assert(all.take(i + 1).drop_last() =~= all.take(i as int));
        assert(all.take(i + 1).last() == parts@[i as int]@);
        match &parts[i] {
            PathPart::Current => {},
            PathPart::Parent => {
                if should_preserve_parent_dir(kept.as_slice()) {
                    kept.push(PathPart::Parent);
                    assert(views(kept@) =~= before.push(PathPartView::Parent));
                } else {
                    let last: usize = kept.len() - 1;
                    assert(before.last() == kept@[last as int]@);
                    if !matches!(kept[last], PathPart::Root) {
                        let _ = kept.pop();
                        assert(views(kept@) =~= before.drop_last());
                    }
                }
            },
            PathPart::Root => {
                kept.push(PathPart::Root);
                assert(views(kept@) =~= before.push(PathPartView::Root));
            },
            PathPart::Name(name) => {
                kept.push(PathPart::Name(name.clone()));
                assert(views(kept@) =~= before.push(PathPartView::Name(name@)));
            },
        }
        i = i + 1;
    }
    assert(all.take(parts@.len() as int) =~= all);
    render_path(kept.as_slice())
}

/// Components as a path.
pub fn render_path(parts: &[PathPart]) -> (path: String)
    ensures
        path@ == path_text(views(parts@)),
{
    let mut path: String = String::new();
    let mut i: usize = 0;
    let ghost all = views(parts@);
    assert(all.take(0) =~= Seq::empty());
    while i < parts.len()
        invariant
            i <= parts@.len(),
            all == views(parts@),
            path@ == path_text(all.take(i as int)),
        decreases parts@.len() - i,
    {
        assert(all.take(i + 1).drop_last() =~= all.take(i as int));
        assert(all.take(i + 1).last() == parts@[i as int]@);
        proof {
            reveal_strlit("/");
            reveal_strlit(".");
            reveal_strlit("..");
            assert("/"@ =~= seq!['/']);
            assert("."@ =~= seq!['.']);
            assert(".."@ =~= seq!['.', '.']);
        }
        let text: &str = match &parts[i] {
            PathPart::Root => "/",
            PathPart::Current => ".",
            PathPart::Parent => "..",
            PathPart::Name(name) => name.as_str(),
        };
        path = join_path(path.as_str(), text);
        i = i + 1;
    }
    assert(all.take(parts@.len() as int) =~= all);
    path
}

/// Components as a path of text can spell them: names are not empty, hold no
/// separator and are neither `.` nor `..`; the root and `.` stand first only.
pub open spec fn spelled(parts: Seq<PathPartView>) -> bool {
    forall|i: int|
        0 <= i < parts.len() ==> match #[trigger] parts[i] {
            PathPartView::Root => i == 0,
            PathPartView::Current => i == 0,
            PathPartView::Parent => true,
            PathPartView::Name(name) => is_name(name),
        }
}

/// An ordinary name.
pub open spec fn is_name(name: Seq<char>) -> bool {
    &&& name.len() > 0
    &&& name != seq!['.']
    &&& name != seq!['.', '.']
    &&& forall|i: int| 0 <= i < name.len() ==> name[i] != '/'
}

/// Components that normalisation leaves alone: spelled, without `.`, and with
/// `..` only at the front.
pub open spec fn is_normal(parts: Seq<PathPartView>) -> bool {
    &&& spelled(parts)
    &&& forall|i: int| 0 <= i < parts.len() ==> #[trigger] parts[i] != PathPartView::Current
    &&& forall|i: int, j: int|
        0 <= i < j < parts.len() && #[trigger] parts[j] == PathPartView::Parent
            ==> #[trigger] parts[i] == PathPartView::Parent
}

proof fn lemma_parts_spelled(path: Seq<char>)
    ensures
        spelled(parts_of(path)),
    decreases path.len(),
{
    lemma_segment_start(path);
    let start = segment_start(path);
    let segment = path.skip(start);
    if path.len() > 0 && start > 1 {
        lemma_parts_spelled(path.take(start - 1));
    }
}

proof fn lemma_normal_parts(parts: Seq<PathPartView>)
    requires
        spelled(parts),
    ensures
        is_normal(normal_parts(parts)),
        normal_parts(parts).len() <= parts.len(),
    decreases parts.len(),
{
    if parts.len() > 0 {
        let front = parts.drop_last();
        assert forall|i: int| 0 <= i < front.len() implies match #[trigger] front[i] {
            PathPartView::Root => i == 0,
            PathPartView::Current => i == 0,
            PathPartView::Parent => true,
            PathPartView::Name(name) => is_name(name),
        } by {
            assert(front[i] == parts[i]);
        }
        lemma_normal_parts(front);
        let before = normal_parts(front);
        let after = normal_parts(parts);
        let last = parts[parts.len() - 1];
        if last == PathPartView::Root {
            assert(front.len() == 0);
        }
        assert forall|i: int, j: int|
            0 <= i < j < after.len() && #[trigger] after[j] == PathPartView::Parent implies
            #[trigger] after[i] == PathPartView::Parent by {
            if j < before.len() {
                assert(before[j] == after[j]);
                assert(before[i] == after[i]);
            } else {
                assert(last == PathPartView::Parent);
                assert(before[before.len() - 1] == PathPartView::Parent);
                assert(before[i] == after[i]);
            }
        }
        assert forall|i: int| 0 <= i < after.len() implies #[trigger] after[i]
            != PathPartView::Current by {
            if i < before.len() {
                assert(before[i] == after[i]);
            }
        }
        assert forall|i: int| 0 <= i < after.len() implies match #[trigger] after[i] {
            PathPartView::Root => i == 0,
            PathPartView::Current => i == 0,
            PathPartView::Parent => true,
            PathPartView::Name(name) => is_name(name),
        } by {
            if i < before.len() {
                assert(before[i] == after[i]);
            }
        }
    }
}

proof fn lemma_normal_is_fixed(parts: Seq<PathPartView>)
    requires
        is_normal(parts),
    ensures
        normal_parts(parts) == parts,
    decreases parts.len(),
{
    if parts.len() > 0 {
        let front = parts.drop_last();
        let last = parts[parts.len() - 1];
        assert forall|i: int| 0 <= i < front.len() implies #[trigger] front[i] == parts[i] by {}
        assert(is_normal(front));
        lemma_normal_is_fixed(front);
        assert(parts =~= front.push(last));
        if last == PathPartView::Parent && front.len() > 0 {
            assert(parts[front.len() - 1] == PathPartView::Parent);
        }
    } else {
        assert(normal_parts(parts) =~= parts);
    }
}

proof fn lemma_segment_start_behind(prefix: Seq<char>, name: Seq<char>)
    requires
        forall|i: int| 0 <= i < name.len() ==> name[i] != '/',
        prefix.len() == 0 || prefix.last() == '/',
    ensures
        segment_start(prefix + name) == prefix.len(),
    decreases name.len(),
{
    let whole = prefix + name;
    if name.len() == 0 {
        assert(whole =~= prefix);
    } else {
        assert(whole.last() == name[name.len() - 1]);
        assert(whole.drop_last() =~= prefix + name.drop_last());
        lemma_segment_start_behind(prefix, name.drop_last());
    }
}

proof fn lemma_parts_of_text(parts: Seq<PathPartView>)
    requires
        is_normal(parts),
    ensures
        parts_of(path_text(parts)) == parts,
        parts.len() > 0 ==> path_text(parts).len() > 0,
        parts.len() > 0 && parts.last() != PathPartView::Root ==> path_text(parts).last() != '/',
    decreases parts.len(),
{
    if parts.len() == 0 {
        assert(parts_of(path_text(parts)) =~= parts);
    } else {
        let front = parts.drop_last();
        let last = parts[parts.len() - 1];
        assert forall|i: int| 0 <= i < front.len() implies #[trigger] front[i] == parts[i] by {}
        assert(is_normal(front));
        lemma_parts_of_text(front);
        let base = path_text(front);
        let text = part_text(last);
        let whole = path_text(parts);
        assert(parts =~= front.push(last));
        assert(text.len() > 0);
        if front.len() == 0 {
            assert(base =~= Seq::<char>::empty());
            assert(whole =~= text);
            if last == PathPartView::Root {
                assert(segment_start(whole) == 1);
                assert(whole.skip(1).len() == 0);
                assert(parts_of(whole) =~= parts);
            } else {
                lemma_segment_start_behind(Seq::empty(), text);
                assert(Seq::<char>::empty() + text =~= text);
                assert(whole.skip(0) =~= text);
                assert(parts_of(whole) =~= parts);
            }
        } else {
            let prefix = if base.last() == '/' {
                base
            } else {
                base + seq!['/']
            };
            assert(whole =~= prefix + text);
            lemma_segment_start_behind(prefix, text);
            assert(whole.skip(prefix.len() as int) =~= text);
            assert(whole.last() == text[text.len() - 1]);
            if base.last() == '/' {
                assert(front.last() == PathPartView::Root);
                assert(front.len() == 1) by {
                    assert(front[front.len() - 1] == PathPartView::Root);
                }
                assert(front =~= seq![PathPartView::Root]);
                assert(path_text(front.drop_last()) =~= Seq::<char>::empty());
                assert(base =~= seq!['/']);
                assert(parts_of(whole) =~= parts);
            } else {
                assert(whole.take(prefix.len() - 1) =~= base);
                assert(parts_of(whole) =~= parts);
            }
        }
    }
}

/// Normalising a path twice gives what normalising it once gives.
pub proof fn law_normalize_idempotent(path: Seq<char>)
    ensures
        normalized(normalized(path)) == normalized(path),
{
    lemma_parts_spelled(path);
    lemma_normal_parts(parts_of(path));
    lemma_parts_of_text(normal_parts(parts_of(path)));
    lemma_normal_is_fixed(normal_parts(parts_of(path)));
}

/// A normalised path has no `.`, and no `..` behind a name or the root.
pub proof fn law_normalized_is_normal(path: Seq<char>)
    ensures
        is_normal(parts_of(normalized(path))),
{
    lemma_parts_spelled(path);
    lemma_normal_parts(parts_of(path));
    lemma_parts_of_text(normal_parts(parts_of(path)));
}

/// What stands below a directory under a name has the directory as its parent
/// and the name as its file name.
pub proof fn law_parent_of_joined(directory: Seq<char>, name: Seq<char>)
    requires
        is_name(name),
    ensures
        parent_of(joined(directory, name)) == Some(trimmed(directory)),
        file_name_of(joined(directory, name)) == Some(name),
{
    let prefix = if directory.len() == 0 || directory.last() == '/' {
        directory
    } else {
        directory + seq!['/']
    };
    let whole = joined(directory, name);
    assert(whole =~= prefix + name);
    lemma_segment_start_behind(prefix, name);
    assert(whole.last() == name[name.len() - 1]);
    if whole.last() == '.' && whole.len() > 1 && whole[whole.len() - 2] == '/' {
        if name.len() == 1 {
            assert(name =~= seq!['.']);
        } else {
            assert(name[name.len() - 2] == '/');
        }
    }
    assert(trimmed(whole) == whole);
    assert(whole.take(prefix.len() as int) =~= prefix);
    assert(whole.skip(prefix.len() as int) =~= name);
    if directory.len() > 0 && directory.last() != '/' {
        assert(prefix.drop_last() =~= directory);
        assert(trimmed(prefix) == trimmed(directory));
    }
    assert(whole != seq!['/']);
}

/// The executable of a manifest.
pub fn resolve_manifest_path(manifest_path: &str, entrypoint: &str) -> (path: String)
    ensures
        path@ == manifest_entry(manifest_path@, entrypoint@),
{
    let chars: Vec<char> = chars_of(entrypoint);
    if chars.len() > 0 && chars[0] == '/' {
        return entrypoint.to_owned();
    }
    proof {
        reveal_strlit(".");
        assert("."@ =~= seq!['.']);
    }
    let directory: String = match parent_path(manifest_path) {
        Some(parent) => parent,
        None => ".".to_owned(),
    };
    normalize_path(join_path(directory.as_str(), entrypoint).as_str())
}

/// Joining puts a relative path behind the other one with one slash between them, and
/// nothing else; an absolute path stands for itself.
pub proof fn law_join_puts_one_path_behind_the_other(base: Seq<char>, child: Seq<char>)
    ensures
        child.len() > 0 && child[0] == '/' ==> joined(base, child) == child,
        child.len() == 0 || child[0] != '/' ==> {
            &&& joined(base, child).take(base.len() as int) == base
            &&& joined(base, child).skip(joined(base, child).len() - child.len()) == child
            &&& base.len() == 0 || base.last() == '/' ==> joined(base, child).len() == base.len()
                + child.len()
            &&& base.len() > 0 && base.last() != '/' ==> joined(base, child).len() == base.len() + 1
                + child.len() && joined(base, child)[base.len() as int] == '/'
        },
{
    if child.len() == 0 || child[0] != '/' {
        let whole = joined(base, child);
        assert(whole.take(base.len() as int) =~= base);
        assert(whole.skip(whole.len() - child.len()) =~= child);
    }
}

proof fn lemma_trimmed_once(path: Seq<char>)
    ensures
        trimmed(trimmed(path)) == trimmed(path),
    decreases path.len(),
{
    if path.len() > 1 && (path.last() == '/' || (path.last() == '.' && path[path.len() - 2]
        == '/')) {
        lemma_trimmed_once(path.drop_last());
    }
}

/// Giving a file another name leaves it where it is: its directory stays, and its name
/// is the other one.
pub proof fn law_renamed_file_stays_in_its_directory(path: Seq<char>, name: Seq<char>)
    requires
        is_name(name),
        file_name_of(path) is Some,
    ensures
        parent_of(with_name(path, name)) == parent_of(path),
        file_name_of(with_name(path, name)) == Some(name),
{
    let text = trimmed(path);
    if text == seq!['/'] {
        assert(segment_start(text) == 1);
        assert(text.skip(1).len() == 0);
    }
    let parent = parent_of(path)->0;
    law_parent_of_joined(parent, name);
    lemma_trimmed_once(text.take(segment_start(text)));
}

proof fn lemma_stem(name: Seq<char>, seen: Seq<char>)
    requires
        0 < seen.len() <= name.len(),
        seen == name.take(seen.len() as int),
        forall|i: int| seen.len() <= i < name.len() ==> name[i] != '.',
    ensures
        1 <= stem_len_within(name, seen) <= name.len(),
        stem_len_within(name, seen) < name.len() ==> name[stem_len_within(name, seen)] == '.',
        forall|i: int|
            stem_len_within(name, seen) < i < name.len() ==> #[trigger] name[i] != '.',
        stem_len_within(name, seen) == name.len() ==> forall|i: int|
            1 <= i < name.len() ==> #[trigger] name[i] != '.',
    decreases seen.len(),
{
    if seen.len() > 1 && seen.last() != '.' {
        assert(seen.drop_last() =~= name.take(seen.len() - 1));
        assert(seen.last() == name[seen.len() - 1]);
        lemma_stem(name, seen.drop_last());
    } else if seen.len() > 1 {
        assert(seen.last() == name[seen.len() - 1]);
    }
}

/// Giving a file another extension leaves it in its directory. Its name keeps what is
/// in front of its last dot, unless that dot is its first character, and ends with a
/// dot and the extension.
pub proof fn law_extension_is_replaced(path: Seq<char>, extension: Seq<char>, name: Seq<char>)
    requires
        is_name(extension),
        file_name_of(path) == Some(name),
    ensures
        parent_of(with_suffix(path, extension)) == parent_of(path),
        ({
            let stem = name.take(stem_len(name));
            &&& file_name_of(with_suffix(path, extension)) == Some(
                stem + seq!['.'] + extension,
            )
            &&& 1 <= stem.len() <= name.len()
            &&& stem == name ==> forall|i: int| 1 <= i < name.len() ==> #[trigger] name[i] != '.'
            &&& stem != name ==> name[stem.len() as int] == '.' && forall|i: int|
                stem.len() < i < name.len() ==> #[trigger] name[i] != '.'
        }),
{
    let text = trimmed(path);
    let start = segment_start(text);
    lemma_segment_start(text);
    if text == seq!['/'] {
        assert(segment_start(text) == 1);
        assert(text.skip(1).len() == 0);
    }
    assert(name == text.skip(start));
    assert(name =~= name.take(name.len() as int));
    lemma_stem(name, name);
    let stem = name.take(stem_len(name));
    let renamed = stem + seq!['.'] + extension;
    let prefix = text.take(start);
    assert(stem == name ==> stem_len(name) == name.len());
    assert(with_suffix(path, extension) =~= prefix + renamed);
    assert forall|i: int| 0 <= i < renamed.len() implies renamed[i] != '/' by {
        if i < stem.len() {
            assert(renamed[i] == text[start + i]);
        } else if i > stem.len() {
            assert(renamed[i] == extension[i - stem.len() - 1]);
        }
    }
    assert(renamed.len() >= 3 || renamed.len() == 2 + extension.len() - 1);
    assert(renamed != seq!['.', '.']) by {
        if renamed == seq!['.', '.'] {
            assert(extension.len() == 1);
            assert(stem.len() == 1);
            assert(renamed.len() == 3);
        }
    }
    assert(is_name(renamed));
    assert(joined(prefix, renamed) =~= prefix + renamed) by {
        if prefix.len() > 0 {
            assert(prefix.last() == '/');
        }
        assert(renamed[0] != '/');
    }
    law_parent_of_joined(prefix, renamed);
}

proof fn lemma_parts_of_joined(base: Seq<char>, segment: Seq<char>)
    requires
        base.len() > 0,
        segment.len() > 0,
        forall|i: int| 0 <= i < segment.len() ==> segment[i] != '/',
    ensures
        parts_of(joined(base, segment)) == if segment == seq!['.'] {
            parts_of(base)
        } else {
            parts_of(base).push(part_of(segment))
        },
{
    let prefix = if base.last() == '/' {
        base
    } else {
        base + seq!['/']
    };
    let whole = joined(base, segment);
    assert(whole =~= prefix + segment);
    lemma_segment_start_behind(prefix, segment);
    assert(whole.skip(prefix.len() as int) =~= segment);
    assert(segment_start(base) == base.len() || base.last() != '/');
    if base.last() == '/' {
        assert(base.skip(base.len() as int).len() == 0);
        if base.len() > 1 {
            assert(whole.take(prefix.len() - 1) =~= base.take(base.len() - 1));
        }
    } else {
        assert(whole.take(prefix.len() - 1) =~= base);
    }
}

/// Normalising follows a path: a name leads below, a dot stays, and two dots behind a
/// name lead back to where the name was.
pub proof fn law_normalizing_follows_the_path(base: Seq<char>, name: Seq<char>)
    requires
        base.len() > 0,
        is_name(name),
    ensures
        normalized(joined(base, seq!['.'])) == normalized(base),
        normalized(joined(joined(base, name), seq!['.', '.'])) == normalized(base),
        normalized(joined(base, name)) == joined(normalized(base), name),
        parts_of(normalized(joined(base, name))) == parts_of(normalized(base)).push(
            PathPartView::Name(name),
        ),
{
    let parts = parts_of(base);
    let below = joined(base, name);
    lemma_parts_of_joined(base, seq!['.']);
    lemma_parts_of_joined(base, name);
    lemma_parts_of_joined(below, seq!['.', '.']);
    assert(seq!['.', '.'].len() == 2);
    assert(part_of(seq!['.', '.']) == PathPartView::Parent);
    assert(parts_of(below).drop_last() =~= parts);
    let up = parts_of(below).push(PathPartView::Parent);
    assert(up.drop_last() =~= parts_of(below));
    let normal = normal_parts(parts);
    let longer = normal.push(PathPartView::Name(name));
    assert(normal_parts(parts_of(below)) == longer);
    assert(longer.drop_last() =~= normal);
    assert(longer.last() == PathPartView::Name(name));
    assert(normal_parts(up) == normal);
    lemma_parts_spelled(base);
    lemma_normal_parts(parts);
    lemma_parts_of_text(normal);
    lemma_parts_spelled(below);
    lemma_normal_parts(parts_of(below));
    lemma_parts_of_text(longer);
}

/// The name of a file is a name.
pub proof fn law_file_name_has_no_slash(path: Seq<char>)
    ensures
        file_name_of(path) matches Some(name) ==> is_name(name),
{
    let text = trimmed(path);
    lemma_segment_start(text);
    if let Some(name) = file_name_of(path) {
        assert forall|i: int| 0 <= i < name.len() implies name[i] != '/' by {
            assert(name[i] == text[segment_start(text) + i]);
        }
    }
}

} // verus!
