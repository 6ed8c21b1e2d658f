//! Paths of files as strings, as on Unix: with `/` between their components. Empty
//! components, and those that are `.`, stand for nothing, but for a `.` at the very start of
//! a path.

use crate::text::str_chars;
use vstd::prelude::*;

verus! {

/// The last position of `c` in `s`, or -1.
pub open spec fn last_position(s: Seq<char>, c: char) -> int
    decreases s.len(),
{
    if s.len() == 0 {
        -1
    } else if s.last() == c {
        s.len() - 1
    } else {
        last_position(s.drop_last(), c)
    }
}

/// The last position lies within the string.
pub proof fn lemma_last_position_bounds(s: Seq<char>, c: char)
    ensures
        -1 <= last_position(s, c) < s.len(),
    decreases s.len(),
{
    if s.len() > 0 {
        lemma_last_position_bounds(s.drop_last(), c);
    }
}

/// How many characters stand before the components of `path` that are counted: the slash of
/// the root, or a `.` at the start.
pub open spec fn lead(path: Seq<char>) -> int {
    if path.len() > 0 && path[0] == '/' {
        1
    } else if path.len() > 0 && path[0] == '.' && (path.len() == 1 || path[1] == '/') {
        1
    } else {
        0
    }
}

/// Where the last component of `path` starts: after its last slash, and not before the lead
/// has ended.
pub open spec fn last_component(path: Seq<char>) -> int {
    lead(path) + last_position(path.skip(lead(path)), '/') + 1
}

/// Where `path` ends without its last component, and without the slash before that.
pub open spec fn end_of_rest(path: Seq<char>) -> int {
    if last_component(path) > lead(path) {
        last_component(path) - 1
    } else {
        lead(path)
    }
}

/// The last component lies within the path.
pub proof fn lemma_last_component(path: Seq<char>)
    ensures
        0 <= lead(path) <= path.len(),
        lead(path) <= end_of_rest(path) <= last_component(path) <= path.len(),
        lead(path) < path.len() ==> end_of_rest(path) < path.len(),
{
    lemma_last_position_bounds(path.skip(lead(path)), '/');
}

/// `path` without the components at its end that stand for nothing.
#[verifier::opaque]
pub open spec fn without_trailing(path: Seq<char>) -> Seq<char>
    decreases path.len(),
{
    let name = path.skip(last_component(path));
    if path.len() > lead(path) && (name.len() == 0 || name == seq!['.']) {
        proof {
            lemma_last_component(path);
        }
        without_trailing(path.take(end_of_rest(path)))
    } else {
        path
    }
}

/// `path` without its last component, or `None` for the root and for the empty path.
pub open spec fn parent(path: Seq<char>) -> Option<Seq<char>> {
    let whole = without_trailing(path);
    if whole.len() > lead(whole) {
        Some(without_trailing(whole.take(end_of_rest(whole))))
    } else if whole == seq!['.'] {
        Some(seq![])
    } else {
        None
    }
}

/// `path` ends in the name of a file or a directory, which `..` is not.
pub open spec fn has_name(path: Seq<char>) -> bool {
    let whole = without_trailing(path);
    whole.len() > lead(whole) && whole.skip(last_component(whole)) != seq!['.', '.']
}

/// `path` up to the end of its last name, without the extension of that name. An extension
/// follows the last dot of a name; a dot at the start of the name does not count.
pub open spec fn without_extension(path: Seq<char>) -> Seq<char> {
    let whole = without_trailing(path);
    let dot = last_position(whole.skip(last_component(whole)), '.');
    if dot <= 0 {
        whole
    } else {
        whole.take(last_component(whole) + dot)
    }
}

/// `path` with `extension` in place of the extension of its last name, or with none where
/// `extension` is empty. A path without a name is left as it is.
pub open spec fn extended(path: Seq<char>, extension: Seq<char>) -> Seq<char> {
    if !has_name(path) {
        path
    } else if extension.len() == 0 {
        without_extension(path)
    } else {
        without_extension(path).push('.') + extension
    }
}

/// How much of the first `end` characters goes up to, and with, the last `c`: `from` where
/// there is none from there on.
fn end_of_last(chars: &Vec<char>, from: usize, end: usize, c: char) -> (r: usize)
    requires
        from <= end <= chars@.len(),
    ensures
        from <= r <= end,
        r - from == last_position(chars@.take(end as int).skip(from as int), c) + 1,
{
    let mut at: usize = end;
    let ghost rest = chars@.take(end as int).skip(from as int);
    assert(rest.take(at - from) =~= rest);
    while at > from
        invariant
            from <= at <= end <= chars@.len(),
            rest == chars@.take(end as int).skip(from as int),
            last_position(rest, c) == last_position(rest.take(at - from), c),
        decreases at,
    {
        assert(rest.take(at - from).last() == chars@[at - 1]);
        if chars[at - 1] == c {
            return at;
        }
        assert(rest.take(at - from).drop_last() =~= rest.take(at - 1 - from));
        at -= 1;
    }
    at
}

/// How many characters stand before the components of the first `end` characters.
fn lead_len(chars: &Vec<char>, end: usize) -> (r: usize)
    requires
        end <= chars@.len(),
    ensures
        r == lead(chars@.take(end as int)),
        r <= end,
{
    if end > 0 && (chars[0] == '/' || (chars[0] == '.' && (end == 1 || chars[1] == '/'))) {
        1
    } else {
        0
    }
}

/// Where the last component of the first `end` characters starts.
fn component_start(chars: &Vec<char>, end: usize) -> (r: usize)
    requires
        end <= chars@.len(),
    ensures
        r == last_component(chars@.take(end as int)),
        lead(chars@.take(end as int)) <= r <= end,
{
    end_of_last(chars, lead_len(chars, end), end, '/')
}

/// Where the first `end` characters end without their last component.
fn rest_end(chars: &Vec<char>, end: usize) -> (r: usize)
    requires
        end <= chars@.len(),
    ensures
        r == end_of_rest(chars@.take(end as int)),
        r <= end,
{
    let name = component_start(chars, end);
    if name > lead_len(chars, end) {
        name - 1
    } else {
        name
    }
}

/// Where the first `end` characters end without the components at their end that stand for
/// nothing.
fn trailing_start(chars: &Vec<char>, end: usize) -> (r: usize)
    requires
        end <= chars@.len(),
    ensures
        r <= end,
        chars@.take(r as int) == without_trailing(chars@.take(end as int)),
{
    let mut at: usize = end;
    loop
        invariant
            at <= end <= chars@.len(),
            without_trailing(chars@.take(at as int)) == without_trailing(chars@.take(end as int)),
        ensures
            at <= end,
            chars@.take(at as int) == without_trailing(chars@.take(end as int)),
        decreases at,
    {
        let ghost path = chars@.take(at as int);
        reveal(without_trailing);
        if at <= lead_len(chars, at) {
            break;
        }
        let name = component_start(chars, at);
        let nothing = name == at || (at - name == 1 && chars[name] == '.');
        proof {
            let last = path.skip(name as int);
            if name < at {
                assert(last[0] == chars@[name as int]);
            }
            if nothing && name < at {
                assert(last =~= seq!['.']);
            }
            assert(seq!['.'].len() == 1 && seq!['.'][0] == '.');
            lemma_last_component(path);
        }
        if !nothing {
            break;
        }
        let less = rest_end(chars, at);
        assert(path.take(less as int) =~= chars@.take(less as int));
        at = less;
    }
    at
}

/// What stands before a name in the directory `dir`.
pub open spec fn prefix(dir: Seq<char>) -> Seq<char> {
    if dir.len() == 0 || dir.last() == '/' {
        dir
    } else {
        dir.push('/')
    }
}

/// `name` in the directory `dir`: a name that starts at the root stands for itself.
pub open spec fn joined(dir: Seq<char>, name: Seq<char>) -> Seq<char> {
    if name.len() > 0 && name[0] == '/' {
        name
    } else {
        prefix(dir) + name
    }
}

/// The path of `name` in the directory `dir`.
pub fn join_path(dir: &str, name: &str) -> (r: String)
    ensures
        r@ == joined(dir@, name@),
{
    let named = str_chars(name);
    if named.len() > 0 && named[0] == '/' {
        return String::from_str(name);
    }
    let chars = str_chars(dir);
    let mut path = String::from_str(dir);
    if chars.len() > 0 && chars[chars.len() - 1] != '/' {
        path.append("/");
        proof {
            reveal_strlit("/");
            assert(path@ =~= dir@.push('/'));
        }
    }
    path.append(name);
    path
}

/// `path` without its last component, or `None` for the root and for the empty path.
pub fn parent_of(path: &str) -> (r: Option<String>)
    ensures
        r.deep_view() == parent(path@),
{
    let chars = str_chars(path);
    assert(chars@.take(chars@.len() as int) =~= path@);
    let end = trailing_start(&chars, chars.len());
    let ghost whole = chars@.take(end as int);
    if end > lead_len(&chars, end) {
        let rest = rest_end(&chars, end);
        assert(whole.take(rest as int) =~= chars@.take(rest as int));
        let to = trailing_start(&chars, rest);
        assert(path@.subrange(0, to as int) =~= chars@.take(to as int));
        Some(String::from_str(path.substring_char(0, to)))
    } else if end == 1 && chars[0] == '.' {
        assert(whole =~= seq!['.']);
        let empty = String::new();
        assert(empty@ =~= seq![]);
        Some(empty)
    } else {
        assert(end == 1 ==> whole[0] == chars@[0]);
        None
    }
}

/// `path` with `extension` in place of the extension of its last name. A path without a name
/// is left as it is.
pub fn with_extension(path: &str, extension: &str) -> (r: String)
    requires
        !extension@.contains('/'),
    ensures
        r@ == extended(path@, extension@),
{
    let chars = str_chars(path);
    assert(chars@.take(chars@.len() as int) =~= path@);
    let end = trailing_start(&chars, chars.len());
    let ghost whole = chars@.take(end as int);
    let name = component_start(&chars, end);
    let up = end - name == 2 && chars[name] == '.' && chars[name + 1] == '.';
    proof {
        let last = whole.skip(name as int);
        if end - name == 2 {
            assert(last[0] == chars@[name as int] && last[1] == chars@[name + 1]);
        }
        if up {
            assert(last =~= seq!['.', '.']);
        }
    }
    if end <= lead_len(&chars, end) || up {
        return String::from_str(path);
    }
    let dot = end_of_last(&chars, name, end, '.');
    let stem: usize = if dot - name <= 1 {
        end
    } else {
        dot - 1
    };
    assert(path@.subrange(0, stem as int) =~= without_extension(path@));
    let mut renamed = String::from_str(path.substring_char(0, stem));
    if !extension.is_empty() {
        renamed.append(".");
        proof {
            reveal_strlit(".");
            assert(renamed@ =~= without_extension(path@).push('.'));
        }
        renamed.append(extension);
    }
    renamed
}

/// The last position of `c` in `head + tail`: in `tail` if it holds one, else in `head`.
proof fn lemma_last_position(head: Seq<char>, tail: Seq<char>, c: char)
    ensures
        !tail.contains(c) ==> last_position(head + tail, c) == last_position(head, c),
        !tail.contains(c) ==> last_position(head.push(c) + tail, c) == head.len(),
    decreases tail.len(),
{
    if tail.len() == 0 {
        assert(head + tail =~= head);
        assert(head.push(c) + tail =~= head.push(c));
    } else {
        let less = tail.drop_last();
        lemma_last_position(head, less, c);
        assert((head + tail).drop_last() =~= head + less);
        assert((head.push(c) + tail).drop_last() =~= head.push(c) + less);
        assert(tail.contains(tail.last()));
        if !tail.contains(c) {
            assert forall|x: char| less.contains(x) implies tail.contains(x) by {
                assert(tail[less.index_of(x)] == x);
            }
        }
    }
}

/// A file in a directory, whatever the directory: its last component is its name, and the
/// rest is the directory.
pub proof fn law_joined(dir: Seq<char>, name: Seq<char>)
    requires
        name.len() > 0,
        !name.contains('/'),
        name != seq!['.'],
    ensures
        ({
            let path = joined(dir, name);
            &&& without_trailing(path) == path
            &&& last_component(path) == path.len() - name.len()
            &&& path.skip(last_component(path)) == name
            &&& has_name(path) <==> name != seq!['.', '.']
            &&& parent(path) == Some(without_trailing(dir))
        }),
{
    reveal(without_trailing);
    let path = joined(dir, name);
    let at = path.len() - name.len();
    assert(name.contains(name[0]));
    assert(path.skip(at) =~= name);
    let before = lead(path);
    let body = path.skip(before);
    if dir.len() == 0 {
        assert(path =~= name);
        if name.len() > 1 {
            assert(name.contains(name[1]));
        } else {
            assert(name =~= seq![name[0]]);
        }
        assert(body =~= Seq::<char>::empty() + name);
        lemma_last_position(seq![], name, '/');
        assert(path.take(0) =~= dir);
    } else {
        // The directory with one slash behind it.
        let slashed = path.take(at);
        assert(path =~= slashed + name);
        assert(slashed.last() == '/');
        assert(path[0] == slashed[0]);
        if before < at {
            let inner = slashed.skip(before).drop_last();
            assert(body =~= inner.push('/') + name);
            lemma_last_position(inner, name, '/');
            assert(end_of_rest(path) == at - 1);
            if dir.last() == '/' {
                lemma_slash_is_trailing(dir);
                assert(path.take(at - 1) =~= dir.drop_last());
            } else {
                assert(path.take(at - 1) =~= dir);
            }
        } else {
            assert(at == 1);
            assert(dir =~= seq!['/']);
            assert(body =~= Seq::<char>::empty() + name);
            lemma_last_position(seq![], name, '/');
            assert(path.take(1) =~= dir);
        }
    }
}

/// A slash behind the lead of a path stands for nothing.
proof fn lemma_slash_is_trailing(path: Seq<char>)
    requires
        path.len() > lead(path),
        path.last() == '/',
    ensures
        without_trailing(path) == without_trailing(path.drop_last()),
{
    reveal(without_trailing);
    let body = path.skip(lead(path));
    assert(body.last() == '/');
    assert(path.take(path.len() - 1) =~= path.drop_last());
    assert(path.skip(last_component(path)) =~= seq![]);
}

/// Another extension takes the place of the extension of a file in a directory, whatever the
/// directory.
pub proof fn law_joined_extended(
    dir: Seq<char>,
    stem: Seq<char>,
    old_extension: Seq<char>,
    extension: Seq<char>,
)
    requires
        stem.len() > 0,
        !stem.contains('/'),
        stem[0] != '.',
        !old_extension.contains('/'),
        !old_extension.contains('.'),
        extension.len() > 0,
    ensures
        extended(joined(dir, stem.push('.') + old_extension), extension) == joined(
            dir,
            stem.push('.') + extension,
        ),
{
    let name = stem.push('.') + old_extension;
    assert(!name.contains('/')) by {
        if name.contains('/') {
            let i = name.index_of('/');
            if i < stem.len() {
                assert(stem[i] == '/');
            } else if i > stem.len() {
                assert(old_extension[i - stem.len() - 1] == '/');
            }
        }
    }
    assert(stem.contains(stem[0]));
    assert(name[0] == stem[0]);
    assert(seq!['.'][0] == '.' && seq!['.', '.'][0] == '.');
    law_joined(dir, name);
    lemma_last_position(stem, old_extension, '.');
    let path = joined(dir, name);
    let before = prefix(dir);
    assert(path.take((before.len() + stem.len()) as int) =~= before + stem);
    assert(without_extension(path) == before + stem);
    assert((before + stem).push('.') + extension =~= before + (stem.push('.') + extension));
}

/// A name in a directory stands behind the directory, with exactly one slash between where the
/// directory does not bring its own; a name from the root stands alone.
pub proof fn law_joined_text(dir: Seq<char>, name: Seq<char>)
    ensures
        name.len() > 0 && name[0] == '/' ==> joined(dir, name) == name,
        !(name.len() > 0 && name[0] == '/') ==> {
            &&& dir.len() == 0 ==> joined(dir, name) == name
            &&& dir.len() > 0 && dir.last() == '/' ==> joined(dir, name) == dir + name
            &&& dir.len() > 0 && dir.last() != '/' ==> joined(dir, name) == dir + seq!['/'] + name
        },
{
    if dir.len() == 0 {
        assert(dir + name =~= name);
    } else if dir.last() != '/' {
        assert(dir.push('/') + name =~= dir + seq!['/'] + name);
    }
}

/// A slash behind a path stands for nothing, nor does a `.` behind that: the path has the same
/// parent and the same last name.
pub proof fn law_trailing_stands_for_nothing(path: Seq<char>)
    requires
        path.len() > 0,
    ensures
        without_trailing(path.push('/')) == without_trailing(path),
        without_trailing(path.push('/').push('.')) == without_trailing(path),
        parent(path.push('/')) == parent(path),
        has_name(path.push('/')) == has_name(path),
        without_extension(path.push('/')) == without_extension(path),
{
    reveal(without_trailing);
    let slashed = path.push('/');
    assert(slashed[0] == path[0]);
    if path.len() > 1 {
        assert(slashed[1] == path[1]);
    }
    assert(slashed.len() > lead(slashed));
    lemma_slash_is_trailing(slashed);
    assert(slashed.drop_last() =~= path);
    let dotted = slashed.push('.');
    assert(dotted[0] == path[0] && dotted[1] == slashed[1]);
    let before = lead(dotted);
    assert(before == lead(slashed));
    let inner = slashed.skip(before).drop_last();
    assert(dotted.skip(before) =~= inner.push('/') + seq!['.']);
    assert(!seq!['.'].contains('/'));
    lemma_last_position(inner, seq!['.'], '/');
    assert(dotted.skip(last_component(dotted)) =~= seq!['.']);
    assert(end_of_rest(dotted) == slashed.len() - 1);
    assert(dotted.take(end_of_rest(dotted)) =~= path);
}

/// An extension is put behind the name of a file that has no dot in it.
pub proof fn law_extension_is_added(dir: Seq<char>, name: Seq<char>, extension: Seq<char>)
    requires
        name.len() > 0,
        !name.contains('/'),
        !name.contains('.'),
    ensures
        extension.len() > 0 ==> extended(joined(dir, name), extension) == joined(dir, name).push(
            '.',
        ) + extension,
        extension.len() == 0 ==> extended(joined(dir, name), extension) == joined(dir, name),
{
    assert(name.contains(name[0]));
    assert(seq!['.'][0] == '.' && seq!['.', '.'][0] == '.');
    law_joined(dir, name);
    lemma_last_position(seq![], name, '.');
    assert(Seq::<char>::empty() + name =~= name);
}

} // verus!
