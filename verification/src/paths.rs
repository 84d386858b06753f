//! Names of the artifacts that the pipeline leaves on disk.
//!
//! A path is text in the manner of Unix: components parted by `/`. Empty
//! components and `.` components count for nothing behind the start of the
//! path, and the file name of a path is its last component, if that is no
//! `..`.

use crate::text::{
    chars_of,
    decimal,
    is_numeric,
    lemma_numbers_are_numeric,
    occurs_at,
    padded,
    push_decimal,
    push_padded,
    push_signed_padded,
    signed_padded,
};
use crate::time::{
    imagery_time,
    lemma_same_bucket_same_timestamp,
    CivilTime,
    ImageryTimestamp,
    PUBLICATION_LATENCY_SECONDS,
};
use vstd::prelude::*;

verus! {

/// The directory, below the application's data directory, that holds all artifacts.
pub const ARTIFACT_DIRECTORY: &'static str = "immediate_earth";

/// The directory, below the artifact directory, that holds the raw tiles.
pub const TILE_DIRECTORY: &'static str = "tiles";

/// What the name of the bordered mosaic has behind its stem.
pub const BORDERED_SUFFIX: &'static str = "_black";

/// The last position at which `c` stands in `s`, or -1 if it stands nowhere.
pub open spec fn last_index_of(s: Seq<char>, c: char) -> int
    decreases s.len(),
{
    if s.len() == 0 {
        -1
    } else if s.last() == c {
        s.len() - 1
    } else {
        last_index_of(s.drop_last(), c)
    }
}

/// The path starts at the root directory.
pub open spec fn is_rooted(path: Seq<char>) -> bool {
    path.len() > 0 && path[0] == '/'
}

/// The path starts with a `.` component, which stands for the directory at hand.
pub open spec fn starts_here(path: Seq<char>) -> bool {
    path.len() > 0 && path[0] == '.' && (path.len() == 1 || path[1] == '/')
}

/// Where the components of a path start that can be passed over or taken
/// off: behind the root or the leading `.`, if it has one.
pub open spec fn body_start(path: Seq<char>) -> int {
    if is_rooted(path) || starts_here(path) {
        1
    } else {
        0
    }
}

/// Where the component starts that ends at `end`.
pub open spec fn component_start(path: Seq<char>, end: int) -> int {
    let slash = last_index_of(path.take(end), '/');
    if slash + 1 > body_start(path) {
        slash + 1
    } else {
        body_start(path)
    }
}

/// Where the path ends once the component that ends at `end` is taken off,
/// with the `/` before it.
pub open spec fn before_component(path: Seq<char>, end: int) -> int {
    let slash = last_index_of(path.take(end), '/');
    if slash >= body_start(path) {
        slash
    } else {
        body_start(path)
    }
}

/// The component counts for nothing: it is empty or `.`.
pub open spec fn is_passed_over(component: Seq<char>) -> bool {
    component.len() == 0 || component == seq!['.']
}

/// Where the first `end` characters of a path end once the components at
/// their end that count for nothing are taken off.
pub open spec fn trimmed_end(path: Seq<char>, end: int) -> int
    decreases end,
{
    if end <= body_start(path) {
        end
    } else if is_passed_over(path.subrange(component_start(path, end), end)) && before_component(
        path,
        end,
    ) < end {
        trimmed_end(path, before_component(path, end))
    } else {
        end
    }
}

/// Where the last component of a path ends.
pub open spec fn name_end(path: Seq<char>) -> int {
    trimmed_end(path, path.len() as int)
}

/// Where the last component of a path starts.
pub open spec fn name_start(path: Seq<char>) -> int {
    component_start(path, name_end(path))
}

/// The path has a file name: a last component that is no `..`.
pub open spec fn has_file_name(path: Seq<char>) -> bool {
    name_end(path) > body_start(path) && path.subrange(name_start(path), name_end(path))
        != seq!['.', '.']
}

/// The file name of a path; empty where it has none.
pub open spec fn file_name_of(path: Seq<char>) -> Seq<char> {
    if has_file_name(path) {
        path.subrange(name_start(path), name_end(path))
    } else {
        Seq::empty()
    }
}

/// Where the parent of a path ends: the path without its last component, the
/// `/` before it, and what counts for nothing before that.
pub open spec fn parent_end(path: Seq<char>) -> int {
    trimmed_end(path, before_component(path, name_end(path)))
}

/// Where the dot stands that parts the stem of a file name from its
/// extension: at the last dot, unless the name has none or only the one it
/// begins with.
pub open spec fn extension_dot(name: Seq<char>) -> Option<int> {
    if last_index_of(name, '.') > 0 {
        Some(last_index_of(name, '.'))
    } else {
        None
    }
}

/// The file name without its extension and the dot before it.
pub open spec fn stem_of(name: Seq<char>) -> Seq<char> {
    match extension_dot(name) {
        Some(dot) => name.take(dot),
        None => name,
    }
}

/// The extension of a file name, without the dot; empty where it has none.
pub open spec fn extension_of(name: Seq<char>) -> Seq<char> {
    match extension_dot(name) {
        Some(dot) => name.skip(dot + 1),
        None => Seq::empty(),
    }
}

/// The file name with `suffix` behind its stem. The extension stays; a dot
/// with nothing behind it is dropped.
pub open spec fn renamed(name: Seq<char>, suffix: Seq<char>) -> Seq<char> {
    if extension_of(name).len() == 0 {
        stem_of(name) + suffix
    } else {
        stem_of(name) + suffix + seq!['.'] + extension_of(name)
    }
}

/// The path `base` with the component `name` behind it. A `/` goes between
/// them unless `base` is empty or ends in one; a `name` that starts at the
/// root takes the place of `base`.
pub open spec fn joined(base: Seq<char>, name: Seq<char>) -> Seq<char> {
    if is_rooted(name) {
        name
    } else if base.len() > 0 && base.last() != '/' {
        base + seq!['/'] + name
    } else {
        base + name
    }
}

/// The path with `suffix` put behind the stem of its file name: the parent
/// of the path with the new file name behind it. A path without a file name
/// gets the suffix as a component of its own.
pub open spec fn with_suffix(path: Seq<char>, suffix: Seq<char>) -> Seq<char> {
    if has_file_name(path) {
        joined(path.take(parent_end(path)), renamed(file_name_of(path), suffix))
    } else {
        joined(path, suffix)
    }
}

/// The date of a calendar minute as an artifact carries it: year, month and
/// day in four, two and two digits.
pub open spec fn date_tag_text(year: int, month: nat, day: nat) -> Seq<char> {
    signed_padded(year, 4) + padded(month, 2) + padded(day, 2)
}

/// The file name of the mosaic of an imagery timestamp:
/// `earth_{date}_{hour}{minute}.png`.
pub open spec fn mosaic_file_name_text(at: CivilTime) -> Seq<char> {
    "earth_"@ + date_tag_text(at.year as int, at.month as nat, at.day as nat) + "_"@ + padded(
        at.hour as nat,
        2,
    ) + padded(at.minute as nat, 2) + ".png"@
}

/// The file name of a raw tile: `tile_{col}_{row}.png`.
pub open spec fn tile_file_name_text(col: nat, row: nat) -> Seq<char> {
    "tile_"@ + decimal(col) + "_"@ + decimal(row) + ".png"@
}

/// The file name of the wallpaper of a display: `wallpaper_{width}x{height}.png`.
pub open spec fn wallpaper_file_name_text(width: nat, height: nat) -> Seq<char> {
    "wallpaper_"@ + decimal(width) + "x"@ + decimal(height) + ".png"@
}

/// The directory of the wallpapers of a display: `monitor_{index}`.
pub open spec fn display_directory_text(index: nat) -> Seq<char> {
    "monitor_"@ + decimal(index)
}

/// `last_index_of` gives a position of `c`, and `c` stands nowhere behind it.
pub proof fn lemma_last_index_of(s: Seq<char>, c: char)
    ensures
        -1 <= last_index_of(s, c) < s.len(),
        last_index_of(s, c) >= 0 ==> s[last_index_of(s, c)] == c,
        forall|i: int| last_index_of(s, c) < i < s.len() ==> s[i] != c,
    decreases s.len(),
{
    if s.len() > 0 && s.last() != c {
        lemma_last_index_of(s.drop_last(), c);
        assert forall|i: int| last_index_of(s, c) < i < s.len() implies s[i] != c by {
            if i < s.len() - 1 {
                assert(s.drop_last()[i] == s[i]);
            }
        }
    }
}

/// `c` stands nowhere in `s`.
pub open spec fn free_of(s: Seq<char>, c: char) -> bool {
    forall|i: int| 0 <= i < s.len() ==> s[i] != c
}

/// The text is the name of a file: not empty, without `/`, and neither `.`
/// nor `..`.
pub open spec fn is_plain_name(name: Seq<char>) -> bool {
    &&& name.len() > 0
    &&& free_of(name, '/')
    &&& name != seq!['.']
    &&& name != seq!['.', '.']
}

/// The directories of a path end in a component of their own, or there are none.
pub open spec fn ends_in_directory(directories: Seq<char>) -> bool {
    directories.len() == 0 || (directories.last() != '/' && directories.last() != '.')
}

/// Where `c` stands last in a text that ends in a part without `c`.
proof fn lemma_last_index_of_tail(head: Seq<char>, tail: Seq<char>, c: char)
    requires
        free_of(tail, c),
    ensures
        last_index_of(head + tail, c) == last_index_of(head, c),
    decreases tail.len(),
{
    if tail.len() == 0 {
        assert(head + tail =~= head);
    } else {
        let whole = head + tail;
        assert(whole.last() == tail.last());
        assert(whole.drop_last() =~= head + tail.drop_last());
        lemma_last_index_of_tail(head, tail.drop_last(), c);
    }
}

/// A path that ends in the name of a file, behind nothing or behind a `/`,
/// has that name for its file name.
pub proof fn lemma_ends_in_name(front: Seq<char>, name: Seq<char>)
    requires
        is_plain_name(name),
        front.len() == 0 || front.last() == '/',
    ensures
        name_end(front + name) == front.len() + name.len(),
        name_start(front + name) == front.len(),
        has_file_name(front + name),
        file_name_of(front + name) == name,
        before_component(front + name, name_end(front + name)) == if front.len() - 1
            >= body_start(front + name) {
            front.len() - 1
        } else {
            body_start(front + name)
        },
        body_start(front + name) <= front.len(),
{
    let path = front + name;
    let len = path.len() as int;
    assert(path.take(len) =~= path);
    lemma_last_index_of_tail(front, name, '/');
    lemma_last_index_of(front, '/');
    assert(path[0] == if front.len() > 0 {
        front[0]
    } else {
        name[0]
    });
    if front.len() == 0 {
        assert(path =~= name);
        if name[0] == '.' && name.len() > 1 {
            assert(name[1] != '/');
        }
        if name[0] == '.' && name.len() == 1 {
            assert(name =~= seq!['.']);
        }
        assert(body_start(path) == 0);
    } else {
        assert(last_index_of(front, '/') == front.len() - 1) by {
            assert(front.last() == '/');
        }
    }
    assert(component_start(path, len) == front.len());
    assert(path.subrange(front.len() as int, len) =~= name);
}

/// The name of a file is its own file name.
pub proof fn lemma_plain_name(name: Seq<char>)
    requires
        is_plain_name(name),
    ensures
        has_file_name(name),
        file_name_of(name) == name,
        parent_end(name) == 0,
{
    lemma_ends_in_name(Seq::empty(), name);
    assert(Seq::<char>::empty() + name =~= name);
}

/// The stem of a file name is not empty and starts as the name does.
pub proof fn lemma_stem_starts_name(name: Seq<char>)
    requires
        name.len() > 0,
    ensures
        stem_of(name).len() > 0,
        stem_of(name)[0] == name[0],
{
    lemma_last_index_of(name, '.');
}

/// A file name `{stem}.{extension}` gets the suffix between the stem and the
/// dot: where the stem is not empty, the extension is not empty and holds no
/// dot, and neither holds a `/`.
pub proof fn lemma_suffix_goes_before_extension(
    stem: Seq<char>,
    extension: Seq<char>,
    suffix: Seq<char>,
)
    requires
        stem.len() > 0,
        extension.len() > 0,
        free_of(stem, '/'),
        free_of(extension, '/'),
        free_of(extension, '.'),
    ensures
        file_name_of(stem + seq!['.'] + extension) == stem + seq!['.'] + extension,
        stem_of(stem + seq!['.'] + extension) == stem,
        extension_of(stem + seq!['.'] + extension) == extension,
        with_suffix(stem + seq!['.'] + extension, suffix) == stem + suffix + seq!['.'] + extension,
{
    let name = stem + seq!['.'] + extension;
    assert(is_plain_name(name)) by {
        assert forall|i: int| 0 <= i < name.len() implies name[i] != '/' by {
            if i < stem.len() {
                assert(name[i] == stem[i]);
            } else if i > stem.len() {
                assert(name[i] == extension[i - stem.len() - 1]);
            }
        }
        assert(name.len() >= 3);
    }
    lemma_plain_name(name);
    lemma_last_index_of(name, '.');
    let dot = last_index_of(name, '.');
    assert(name[stem.len() as int] == '.');
    assert forall|i: int| stem.len() < i < name.len() implies name[i] != '.' by {
        assert(name[i] == extension[i - stem.len() - 1]);
    }
    assert(dot == stem.len());
    assert(name.take(dot) =~= stem);
    assert(name.skip(dot + 1) =~= extension);
    assert(name.take(0) =~= Seq::<char>::empty());
    let new_name = stem + suffix + seq!['.'] + extension;
    assert(new_name[0] == stem[0]);
    assert(name.take(0) + new_name =~= new_name);
}

/// The directories of a path stay as they are when its file name gets a suffix.
pub proof fn lemma_suffix_keeps_directories(
    directories: Seq<char>,
    name: Seq<char>,
    suffix: Seq<char>,
)
    requires
        is_plain_name(name),
        ends_in_directory(directories),
    ensures
        with_suffix(directories + seq!['/'] + name, suffix) == directories + seq!['/'] + renamed(
            name,
            suffix,
        ),
{
    let front = directories + seq!['/'];
    let path = front + name;
    let cut = directories.len() as int;
    lemma_ends_in_name(front, name);
    lemma_stem_starts_name(name);
    let new_name = renamed(name, suffix);
    assert(new_name[0] == name[0]);
    assert(!is_rooted(new_name));
    assert(path[0] == front[0]);
    if cut == 0 {
        assert(body_start(path) == 1);
        assert(path.take(1) =~= front);
    } else {
        assert(path[0] == directories[0]);
        assert(body_start(path) <= cut);
        assert(before_component(path, name_end(path)) == cut);
        assert(path.take(cut) =~= directories);
        if cut > body_start(path) {
            lemma_last_index_of(directories, '/');
            let start = component_start(path, cut);
            assert(start < cut);
            let component = path.subrange(start, cut);
            assert(component.last() == directories.last());
            assert(!is_passed_over(component)) by {
                if component.len() == 1 {
                    assert(component[0] == directories.last());
                }
            }
        }
        assert(parent_end(path) == cut);
    }
}

/// The name of the mosaic of an imagery timestamp without its extension.
pub open spec fn mosaic_stem_text(at: CivilTime) -> Seq<char> {
    "earth_"@ + date_tag_text(at.year as int, at.month as nat, at.day as nat) + "_"@ + padded(
        at.hour as nat,
        2,
    ) + padded(at.minute as nat, 2)
}

/// The names of the mosaic and of the bordered mosaic are file names with
/// the extension `png`; the bordered one has `_black` behind the stem; and
/// both hold the date tag of their timestamp.
pub proof fn lemma_mosaic_names(at: CivilTime)
    ensures
        mosaic_file_name_text(at) == mosaic_stem_text(at) + ".png"@,
        with_suffix(mosaic_file_name_text(at), BORDERED_SUFFIX@) == mosaic_stem_text(at)
            + "_black.png"@,
        file_name_of(mosaic_file_name_text(at)) == mosaic_file_name_text(at),
        file_name_of(mosaic_stem_text(at) + "_black.png"@) == mosaic_stem_text(at)
            + "_black.png"@,
        extension_of(mosaic_file_name_text(at)) == "png"@,
        extension_of(mosaic_stem_text(at) + "_black.png"@) == "png"@,
        occurs_at(
            date_tag_text(at.year as int, at.month as nat, at.day as nat),
            mosaic_file_name_text(at),
            6,
        ),
        occurs_at(
            date_tag_text(at.year as int, at.month as nat, at.day as nat),
            mosaic_stem_text(at) + "_black.png"@,
            6,
        ),
{
    reveal_strlit("earth_");
    reveal_strlit("_");
    reveal_strlit(".png");
    reveal_strlit("png");
    reveal_strlit("_black");
    reveal_strlit("_black.png");
    let tag = date_tag_text(at.year as int, at.month as nat, at.day as nat);
    let stem = mosaic_stem_text(at);
    let png = "png"@;
    lemma_numbers_are_numeric(at.year as int, 4);
    lemma_numbers_are_numeric(at.month as int, 2);
    lemma_numbers_are_numeric(at.day as int, 2);
    lemma_numbers_are_numeric(at.hour as int, 2);
    lemma_numbers_are_numeric(at.minute as int, 2);
    assert(is_numeric(tag));
    assert(free_of(stem, '/')) by {
        assert forall|i: int| 0 <= i < stem.len() implies stem[i] != '/' by {
            let clock = padded(at.hour as nat, 2) + padded(at.minute as nat, 2);
            assert(is_numeric(clock));
            if i < 6 {
            } else if i < 6 + tag.len() {
                assert(stem[i] == tag[i - 6]);
            } else if i == 6 + tag.len() {
            } else {
                assert(stem[i] == clock[i - 7 - tag.len()]);
            }
        }
    }
    assert(free_of(png, '/') && free_of(png, '.'));
    assert(".png"@ =~= seq!['.'] + png);
    assert(stem + ".png"@ =~= stem + seq!['.'] + png);
    assert(mosaic_file_name_text(at) =~= stem + seq!['.'] + png);
    lemma_suffix_goes_before_extension(stem, png, BORDERED_SUFFIX@);
    let dark = stem + "_black"@;
    assert(free_of(dark, '/')) by {
        assert forall|i: int| 0 <= i < dark.len() implies dark[i] != '/' by {
            if i < stem.len() {
                assert(dark[i] == stem[i]);
            }
        }
    }
    assert(stem + "_black.png"@ =~= dark + seq!['.'] + png);
    assert(stem + "_black"@ + seq!['.'] + png =~= dark + seq!['.'] + png);
    lemma_suffix_goes_before_extension(dark, png, Seq::<char>::empty());
    assert((stem + seq!['.'] + png).subrange(6, 6 + tag.len() as int) =~= tag);
    assert((dark + seq!['.'] + png).subrange(6, 6 + tag.len() as int) =~= tag);
}

/// Where the components of a path start that can be passed over or taken off.
fn body_start_of(chars: &Vec<char>) -> (start: usize)
    ensures
        start == body_start(chars@),
        start <= chars.len(),
{
    if chars.len() == 0 {
        0
    } else if chars[0] == '/' {
        1
    } else if chars[0] == '.' && (chars.len() == 1 || chars[1] == '/') {
        1
    } else {
        0
    }
}

/// Where the last `/` stands among the first `end` characters.
fn last_slash(chars: &Vec<char>, end: usize) -> (slash: Option<usize>)
    requires
        end <= chars.len(),
    ensures
        match slash {
            Some(i) => last_index_of(chars@.take(end as int), '/') == i && i < end,
            None => last_index_of(chars@.take(end as int), '/') == -1,
        },
{
    let ghost front = chars@.take(end as int);
    let mut i: usize = end;
    assert(front.take(end as int) =~= front);
    while i > 0
        invariant
            i <= end <= chars.len(),
            front == chars@.take(end as int),
            last_index_of(front, '/') == last_index_of(front.take(i as int), '/'),
        decreases i,
    {
        if chars[i - 1] == '/' {
            assert(front.take(i as int).last() == '/');
            return Some(i - 1);
        }
        assert(front.take(i as int).drop_last() =~= front.take(i - 1));
        i = i - 1;
    }
    None
}

/// Where the component starts that ends at `end`, and where the path ends
/// once it is taken off.
fn component_at(chars: &Vec<char>, body: usize, end: usize) -> (at: (usize, usize))
    requires
        body == body_start(chars@),
        body < end <= chars.len(),
    ensures
        at.0 == component_start(chars@, end as int),
        at.1 == before_component(chars@, end as int),
        body <= at.1 <= at.0 <= end,
        at.1 < end,
{
    match last_slash(chars, end) {
        Some(slash) => {
            if slash >= body {
                (slash + 1, slash)
            } else {
                (body, body)
            }
        },
        None => (body, body),
    }
}

/// Where the first `end` characters end once the components at their end
/// that count for nothing are taken off.
fn trim_end(chars: &Vec<char>, body: usize, end: usize) -> (trimmed: usize)
    requires
        body == body_start(chars@),
        end <= chars.len(),
    ensures
        trimmed == trimmed_end(chars@, end as int),
        trimmed <= end,
        end >= body ==> trimmed >= body,
        trimmed > body ==> !is_passed_over(
            chars@.subrange(component_start(chars@, trimmed as int), trimmed as int),
        ),
{
    let mut at: usize = end;
    loop
        invariant
            at <= end <= chars.len(),
            body == body_start(chars@),
            end >= body ==> at >= body,
            trimmed_end(chars@, end as int) == trimmed_end(chars@, at as int),
        decreases at,
    {
        if at <= body {
            return at;
        }
        let (start, before) = component_at(chars, body, at);
        let ghost component = chars@.subrange(start as int, at as int);
        let passed = start == at || (at - start == 1 && chars[start] == '.');
        proof {
            if at - start == 1 && chars[start as int] == '.' {
                assert(component =~= seq!['.']);
            }
            if component == seq!['.'] {
                assert(component.len() == 1);
                assert(component[0] == '.');
            }
        }
        if !passed {
            return at;
        }
        at = before;
    }
}

/// Where the parts of a path lie, counted in characters from its start.
struct Located {
    has_name: bool,
    name_start: usize,
    name_end: usize,
    parent_end: usize,
    dot: Option<usize>,
}

/// Finds the file name of a path, the dot before its extension, and the end
/// of its parent.
fn locate(chars: &Vec<char>) -> (at: Located)
    ensures
        at.has_name == has_file_name(chars@),
        at.name_start == name_start(chars@),
        at.name_end == name_end(chars@),
        at.name_start <= at.name_end <= chars.len(),
        at.has_name ==> at.parent_end == parent_end(chars@) && at.parent_end <= at.name_start
            && at.name_start < at.name_end,
        match at.dot {
            Some(dot) => at.has_name && at.name_start < dot < at.name_end && extension_dot(
                file_name_of(chars@),
            ) == Some(dot - at.name_start),
            None => extension_dot(file_name_of(chars@)) is None,
        },
{
    let body = body_start_of(chars);
    let len = chars.len();
    let end = trim_end(chars, body, len);
    if end <= body {
        proof {
            lemma_last_index_of(chars@.take(end as int), '/');
            assert(last_index_of(Seq::<char>::empty(), '.') == -1);
        }
        return Located {
            has_name: false,
            name_start: body,
            name_end: end,
            parent_end: end,
            dot: None,
        };
    }
    let (start, before) = component_at(chars, body, end);
    let ghost name = chars@.subrange(start as int, end as int);
    if end - start == 2 && chars[start] == '.' && chars[start + 1] == '.' {
        assert(name =~= seq!['.', '.']);
        assert(last_index_of(Seq::<char>::empty(), '.') == -1);
        return Located {
            has_name: false,
            name_start: start,
            name_end: end,
            parent_end: end,
            dot: None,
        };
    }
    proof {
        if name == seq!['.', '.'] {
            assert(name.len() == 2 && name[0] == '.' && name[1] == '.');
        }
        lemma_last_index_of(name, '.');
    }
    let parent = trim_end(chars, body, before);
    let mut dot: usize = end;
    assert(name.take(end - start) =~= name);
    while dot > start && chars[dot - 1] != '.'
        invariant
            start <= dot <= end <= chars.len(),
            name == chars@.subrange(start as int, end as int),
            last_index_of(name, '.') == last_index_of(name.take(dot - start), '.'),
        decreases dot,
    {
        assert(name.take(dot - start).drop_last() =~= name.take(dot - start - 1));
        dot = dot - 1;
    }
    proof {
        if dot > start {
            assert(name.take(dot - start).last() == '.');
        }
    }
    let found = if dot - start > 1 {
        Some(dot - 1)
    } else {
        None
    };
    Located { has_name: true, name_start: start, name_end: end, parent_end: parent, dot: found }
}

/// The file name of a path: its last component, if that is no `..`; empty
/// where the path has none.
pub fn file_name(path: &str) -> (name: &str)
    ensures
        name@ == file_name_of(path@),
{
    let chars = chars_of(path);
    let at = locate(&chars);
    if at.has_name {
        path.substring_char(at.name_start, at.name_end)
    } else {
        let name = path.substring_char(0, 0);
        assert(name@ =~= Seq::<char>::empty());
        name
    }
}

/// The extension of the file name of a path, without the dot; empty where
/// the path has no file name or the file name has none.
pub fn extension(path: &str) -> (ext: &str)
    ensures
        ext@ == extension_of(file_name_of(path@)),
{
    let chars = chars_of(path);
    let at = locate(&chars);
    match at.dot {
        Some(dot) => {
            let ext = path.substring_char(dot + 1, at.name_end);
            assert(ext@ =~= extension_of(file_name_of(path@)));
            ext
        },
        None => {
            let ext = path.substring_char(0, 0);
            assert(ext@ =~= Seq::<char>::empty());
            ext
        },
    }
}

/// The file name with `suffix` behind its stem, before the extension.
fn renamed_name(path: &str, at: &Located, suffix: &str) -> (name: String)
    requires
        at.name_start <= at.name_end <= path@.len(),
        match at.dot {
            Some(dot) => at.name_start < dot < at.name_end && extension_dot(
                path@.subrange(at.name_start as int, at.name_end as int),
            ) == Some(dot - at.name_start),
            None => extension_dot(path@.subrange(at.name_start as int, at.name_end as int))
                is None,
        },
    ensures
        name@ == renamed(path@.subrange(at.name_start as int, at.name_end as int), suffix@),
{
    let ghost old_name = path@.subrange(at.name_start as int, at.name_end as int);
    proof {
        reveal_strlit(".");
        assert("."@ =~= seq!['.']);
    }
    match at.dot {
        Some(dot) => {
            let mut name = String::from_str(path.substring_char(at.name_start, dot));
            assert(path@.subrange(at.name_start as int, dot as int) =~= old_name.take(
                dot - at.name_start,
            ));
            name.append(suffix);
            assert(path@.subrange(dot + 1, at.name_end as int) =~= old_name.skip(
                dot - at.name_start + 1,
            ));
            if dot + 1 < at.name_end {
                name.append(".");
                name.append(path.substring_char(dot + 1, at.name_end));
            }
            name
        },
        None => {
            let mut name = String::from_str(path.substring_char(at.name_start, at.name_end));
            name.append(suffix);
            name
        },
    }
}

/// The path `base` with the component `name` behind it.
fn join(base: &str, name: &str) -> (path: String)
    ensures
        path@ == joined(base@, name@),
{
    let base_chars = chars_of(base);
    let name_chars = chars_of(name);
    proof {
        reveal_strlit("/");
        assert("/"@ =~= seq!['/']);
    }
    if name_chars.len() > 0 && name_chars[0] == '/' {
        return String::from_str(name);
    }
    let mut path = String::from_str(base);
    if base_chars.len() > 0 && base_chars[base_chars.len() - 1] != '/' {
        path.append("/");
    }
    path.append(name);
    path
}

/// The path with `suffix` put behind the stem of its file name, before the
/// extension.
pub fn add_suffix_to_filename(path: &str, suffix: &str) -> (renamed: String)
    ensures
        renamed@ == with_suffix(path@, suffix@),
{
    let chars = chars_of(path);
    let at = locate(&chars);
    if at.has_name {
        let name = renamed_name(path, &at, suffix);
        let parent = path.substring_char(0, at.parent_end);
        assert(parent@ =~= path@.take(at.parent_end as int));
        join(parent, name.as_str())
    } else {
        join(path, suffix)
    }
}

/// Appends the date tag of the given day to `out`.
fn push_date_tag(out: &mut String, year: i32, month: u32, day: u32)
    ensures
        final(out)@ == old(out)@ + date_tag_text(year as int, month as nat, day as nat),
{
    let ghost before = out@;
    push_signed_padded(out, year as i64, 4);
    push_padded(out, month as u64, 2);
    push_padded(out, day as u64, 2);
    assert(out@ =~= before + date_tag_text(year as int, month as nat, day as nat));
}

/// The date tag of a day: what the name of every artifact of that day holds.
pub fn date_tag(year: i32, month: u32, day: u32) -> (tag: String)
    ensures
        tag@ == date_tag_text(year as int, month as nat, day as nat),
{
    let mut tag = String::new();
    push_date_tag(&mut tag, year, month, day);
    assert(tag@ =~= date_tag_text(year as int, month as nat, day as nat));
    tag
}

/// The file name of the mosaic of an imagery timestamp.
pub fn mosaic_file_name(timestamp: &ImageryTimestamp) -> (name: String)
    ensures
        name@ == mosaic_file_name_text(timestamp@),
{
    let mut name = String::from_str("earth_");
    push_date_tag(&mut name, timestamp.year(), timestamp.month(), timestamp.day());
    name.append("_");
    push_padded(&mut name, timestamp.hour() as u64, 2);
    push_padded(&mut name, timestamp.minute() as u64, 2);
    name.append(".png");
    name
}

/// The file name of the bordered mosaic of an imagery timestamp: that of
/// the mosaic with `_black` before the extension.
pub fn bordered_file_name(timestamp: &ImageryTimestamp) -> (name: String)
    ensures
        name@ == with_suffix(mosaic_file_name_text(timestamp@), BORDERED_SUFFIX@),
        name@ == mosaic_stem_text(timestamp@) + "_black.png"@,
{
    proof {
        lemma_mosaic_names(timestamp@);
    }
    let plain = mosaic_file_name(timestamp);
    add_suffix_to_filename(plain.as_str(), BORDERED_SUFFIX)
}

/// The file name of the raw tile in column `col` and row `row`.
pub fn tile_file_name(col: u32, row: u32) -> (name: String)
    ensures
        name@ == tile_file_name_text(col as nat, row as nat),
{
    let mut name = String::from_str("tile_");
    push_decimal(&mut name, col as u64);
    name.append("_");
    push_decimal(&mut name, row as u64);
    name.append(".png");
    name
}

/// The file name of the wallpaper of a display of the given logical size.
pub fn wallpaper_file_name(width: u32, height: u32) -> (name: String)
    ensures
        name@ == wallpaper_file_name_text(width as nat, height as nat),
{
    let mut name = String::from_str("wallpaper_");
    push_decimal(&mut name, width as u64);
    name.append("x");
    push_decimal(&mut name, height as u64);
    name.append(".png");
    name
}

/// The directory of the wallpapers of the display with the given index.
pub fn display_directory(index: usize) -> (name: String)
    ensures
        name@ == display_directory_text(index as nat),
{
    let mut name = String::from_str("monitor_");
    push_decimal(&mut name, index as u64);
    name
}

/// Two refreshes in one publication slot write to the same files: they ask
/// for the same imagery timestamp, and the names of the mosaic and of the
/// bordered mosaic are made of the timestamp alone.
pub proof fn lemma_same_bucket_same_names(now1: int, now2: int)
    requires
        (now1 - PUBLICATION_LATENCY_SECONDS) / 600 == (now2 - PUBLICATION_LATENCY_SECONDS) / 600,
    ensures
        imagery_time(now1) == imagery_time(now2),
        imagery_time(now1) matches Some(at) ==> {
            &&& mosaic_file_name_text(at) == mosaic_file_name_text(imagery_time(now2).unwrap())
            &&& with_suffix(mosaic_file_name_text(at), BORDERED_SUFFIX@) == with_suffix(
                mosaic_file_name_text(imagery_time(now2).unwrap()),
                BORDERED_SUFFIX@,
            )
        },
{
    lemma_same_bucket_same_timestamp(now1, now2);
}

} // verus!
