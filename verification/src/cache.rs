//! What a rendered formula is remembered under, and the files that belong to it.

use crate::backend::Backend;
use crate::command::copy_strings;
use crate::hash::fragment_hash;
use crate::keyed::Key;
use crate::paths::join_path;
use vstd::prelude::*;

verus! {

/// A formula that was rendered: by which program, and the hash of its source.
#[derive(Debug, Hash, PartialEq, Eq)]
pub struct CacheKey {
    pub backend: Backend,
    pub hash: String,
}

/// What a `CacheKey` holds.
pub struct CacheKeyView {
    pub backend: Backend,
    pub hash: Seq<char>,
}

impl DeepView for CacheKey {
    type V = CacheKeyView;

    open spec fn deep_view(&self) -> CacheKeyView {
        CacheKeyView { backend: self.backend, hash: self.hash@ }
    }
}

impl Key for CacheKey {
    fn same(&self, other: &Self) -> (r: bool) {
        self.backend == other.backend && self.hash == other.hash
    }
}

impl Clone for CacheKey {
    fn clone(&self) -> (r: Self)
        ensures
            r.deep_view() == self.deep_view(),
    {
        CacheKey { backend: self.backend, hash: self.hash.clone() }
    }
}

/// The key of `fragment`.
pub open spec fn key_of(backend: Backend, fragment: Seq<char>) -> CacheKeyView {
    CacheKeyView {
        backend,
        hash: crate::hash::hex_digits(crate::hash::fragment_digest(fragment) as int, 16),
    }
}

/// The key of `fragment_content`.
pub fn cache_key(backend: Backend, fragment_content: &str) -> (r: CacheKey)
    ensures
        r.deep_view() == key_of(backend, fragment_content@),
{
    CacheKey { backend, hash: fragment_hash(fragment_content) }
}

/// The files that belong to a rendered formula: its source, its picture, and what is left
/// of the work.
#[derive(Debug)]
pub struct CachedPaths {
    pub input_path: String,
    pub output_path: String,
    pub extra_paths: Vec<String>,
}

/// What a `CachedPaths` holds.
pub struct CachedPathsView {
    pub input_path: Seq<char>,
    pub output_path: Seq<char>,
    pub extra_paths: Seq<Seq<char>>,
}

impl DeepView for CachedPaths {
    type V = CachedPathsView;

    open spec fn deep_view(&self) -> CachedPathsView {
        CachedPathsView {
            input_path: self.input_path@,
            output_path: self.output_path@,
            extra_paths: self.extra_paths.deep_view(),
        }
    }
}

impl Clone for CachedPaths {
    fn clone(&self) -> (r: Self)
        ensures
            r.deep_view() == self.deep_view(),
    {
        CachedPaths {
            input_path: self.input_path.clone(),
            output_path: self.output_path.clone(),
            extra_paths: copy_strings(&self.extra_paths),
        }
    }
}

impl CachedPathsView {
    /// The source, the picture, and the rest.
    pub open spec fn all(self) -> Seq<Seq<char>> {
        seq![self.input_path, self.output_path] + self.extra_paths
    }
}

impl CachedPaths {
    /// The source, the picture, and the rest.
    pub fn all_paths(&self) -> (r: Vec<&String>)
        ensures
            r.deep_view() == self.deep_view().all(),
            r@.len() == self.extra_paths@.len() + 2,
            r@[0]@ == self.input_path@,
            r@[1]@ == self.output_path@,
            forall|i: int|
                0 <= i < self.extra_paths@.len() ==> (#[trigger] r@[i + 2])@
                    == self.extra_paths@[i]@,
    {
        let mut paths: Vec<&String> = Vec::new();
        paths.push(&self.input_path);
        paths.push(&self.output_path);
        for i in 0..self.extra_paths.len()
            invariant
                paths@.len() == i + 2,
                paths@[0]@ == self.input_path@,
                paths@[1]@ == self.output_path@,
                forall|j: int| 0 <= j < i ==> (#[trigger] paths@[j + 2])@ == self.extra_paths@[j]@,
        {
            paths.push(&self.extra_paths[i]);
        }
        proof {
            let all = self.deep_view().all();
            assert forall|k: int| 0 <= k < all.len() implies paths.deep_view()[k] == all[k] by {
                if k >= 2 {
                    assert(paths@[(k - 2) + 2]@ == self.extra_paths@[k - 2]@);
                }
            }
            assert(paths.deep_view() =~= all);
        }
        paths
    }
}

/// The program in the name of a file.
pub open spec fn file_prefix(backend: Backend) -> Seq<char> {
    match backend {
        Backend::LaTeX => "latex"@,
        Backend::Typst => "typst"@,
    }
}

/// The extension of a source file.
pub open spec fn source_extension(backend: Backend) -> Seq<char> {
    match backend {
        Backend::LaTeX => ".tex"@,
        Backend::Typst => ".typ"@,
    }
}

/// The file for `key` in the directory `dir` that ends in `extension`.
pub open spec fn key_file(dir: Seq<char>, key: CacheKeyView, extension: Seq<char>) -> Seq<char> {
    crate::paths::joined(dir, file_prefix(key.backend) + "_"@ + key.hash + extension)
}

/// The files for `key` in the directory `dir`.
pub open spec fn key_paths(dir: Seq<char>, key: CacheKeyView) -> CachedPathsView {
    CachedPathsView {
        input_path: key_file(dir, key, source_extension(key.backend)),
        output_path: key_file(dir, key, ".svg"@),
        extra_paths: match key.backend {
            Backend::LaTeX => seq![
                key_file(dir, key, ".dvi"@),
                key_file(dir, key, ".aux"@),
                key_file(dir, key, ".log"@),
            ],
            Backend::Typst => seq![],
        },
    }
}

/// The file for a key in the directory `dir` that ends in `extension`.
fn file_for(dir: &str, backend: Backend, hash: &str, extension: &str) -> (r: String)
    ensures
        r@ == key_file(dir@, CacheKeyView { backend, hash: hash@ }, extension@),
{
    let mut name = match backend {
        Backend::LaTeX => String::from_str("latex"),
        Backend::Typst => String::from_str("typst"),
    };
    name.append("_");
    name.append(hash);
    name.append(extension);
    join_path(dir, name.as_str())
}

/// The files for a key in the directory `dir`.
pub fn paths_in(dir: &str, backend: Backend, hash: &str) -> (r: CachedPaths)
    ensures
        r.deep_view() == key_paths(dir@, CacheKeyView { backend, hash: hash@ }),
{
    let mut extra_paths: Vec<String> = Vec::new();
    let input_path = match backend {
        Backend::LaTeX => file_for(dir, backend, hash, ".tex"),
        Backend::Typst => file_for(dir, backend, hash, ".typ"),
    };
    let output_path = file_for(dir, backend, hash, ".svg");
    match backend {
        Backend::LaTeX => {
            extra_paths.push(file_for(dir, backend, hash, ".dvi"));
            extra_paths.push(file_for(dir, backend, hash, ".aux"));
            extra_paths.push(file_for(dir, backend, hash, ".log"));
        },
        Backend::Typst => {},
    }
    let paths = CachedPaths { input_path, output_path, extra_paths };
    assert(paths.extra_paths.deep_view() =~= key_paths(
        dir@,
        CacheKeyView { backend, hash: hash@ },
    ).extra_paths);
    paths
}

/// The extensions of the files for a key, in the order of `CachedPathsView::all`.
spec fn extensions(backend: Backend) -> Seq<Seq<char>> {
    match backend {
        Backend::LaTeX => seq![".tex"@, ".svg"@, ".dvi"@, ".aux"@, ".log"@],
        Backend::Typst => seq![".typ"@, ".svg"@],
    }
}

/// The extensions have four characters each and differ from each other.
proof fn lemma_extensions(backend: Backend)
    ensures
        forall|i: int|
            0 <= i < extensions(backend).len() ==> (#[trigger] extensions(backend)[i]).len() == 4,
        extensions(backend).no_duplicates(),
{
    reveal_strlit(".tex");
    reveal_strlit(".typ");
    reveal_strlit(".svg");
    reveal_strlit(".dvi");
    reveal_strlit(".aux");
    reveal_strlit(".log");
    assert(".tex"@[1] == 't' && ".typ"@[1] == 't' && ".svg"@[1] == 's' && ".dvi"@[1] == 'd'
        && ".aux"@[1] == 'a' && ".log"@[1] == 'l');
}

/// The name of a file for a key determines the key and the extension.
proof fn lemma_key_file_injective(
    dir: Seq<char>,
    a: CacheKeyView,
    x: Seq<char>,
    b: CacheKeyView,
    y: Seq<char>,
)
    requires
        x.len() == 4,
        y.len() == 4,
        key_file(dir, a, x) == key_file(dir, b, y),
    ensures
        a == b,
        x == y,
{
    reveal_strlit("latex");
    reveal_strlit("typst");
    reveal_strlit("_");
    let name_a = file_prefix(a.backend) + "_"@ + a.hash + x;
    let name_b = file_prefix(b.backend) + "_"@ + b.hash + y;
    let lead = if dir.len() == 0 || dir.last() == '/' {
        dir.len() as int
    } else {
        dir.len() as int + 1
    };
    assert(name_a[0] != '/' && name_b[0] != '/');
    assert(key_file(dir, a, x).skip(lead) =~= name_a);
    assert(key_file(dir, b, y).skip(lead) =~= name_b);
    assert(name_a.len() == name_b.len());
    let hashed = a.hash.len() as int;
    assert(name_a[0] == file_prefix(a.backend)[0]);
    assert(name_b[0] == file_prefix(b.backend)[0]);
    assert("latex"@[0] == 'l' && "typst"@[0] == 't');
    assert(a.backend == b.backend);
    assert(name_a.subrange(6, 6 + hashed) =~= a.hash);
    assert(name_b.subrange(6, 6 + hashed) =~= b.hash);
    assert(name_a.skip(6 + hashed) =~= x);
    assert(name_b.skip(6 + hashed) =~= y);
}

/// The files for a key, each by its extension.
proof fn lemma_all_paths(dir: Seq<char>, key: CacheKeyView)
    ensures
        key_paths(dir, key).all().len() == extensions(key.backend).len(),
        forall|i: int|
            0 <= i < extensions(key.backend).len() ==> #[trigger] key_paths(dir, key).all()[i]
                == key_file(dir, key, extensions(key.backend)[i]),
{
}

/// No two of the files for a key are the same file.
pub proof fn law_paths_differ(dir: Seq<char>, key: CacheKeyView)
    ensures
        key_paths(dir, key).all().no_duplicates(),
{
    lemma_extensions(key.backend);
    lemma_all_paths(dir, key);
    let all = key_paths(dir, key).all();
    let ends = extensions(key.backend);
    assert forall|i: int, j: int| 0 <= i < all.len() && 0 <= j < all.len() && i != j implies all[i]
        != all[j] by {
        if all[i] == all[j] {
            assert(ends[i].len() == 4 && ends[j].len() == 4);
            lemma_key_file_injective(dir, key, ends[i], key, ends[j]);
        }
    }
}

/// A file belongs to at most one key.
pub proof fn law_paths_belong_to_one_key(
    dir: Seq<char>,
    a: CacheKeyView,
    b: CacheKeyView,
    path: Seq<char>,
)
    requires
        key_paths(dir, a).all().contains(path),
        key_paths(dir, b).all().contains(path),
    ensures
        a == b,
{
    lemma_extensions(a.backend);
    lemma_extensions(b.backend);
    lemma_all_paths(dir, a);
    lemma_all_paths(dir, b);
    let i = key_paths(dir, a).all().index_of(path);
    let j = key_paths(dir, b).all().index_of(path);
    let x = extensions(a.backend)[i];
    let y = extensions(b.backend)[j];
    assert(x.len() == 4 && y.len() == 4);
    assert(path == key_file(dir, a, x));
    assert(path == key_file(dir, b, y));
    lemma_key_file_injective(dir, a, x, b, y);
}

/// All files of a formula are its source, its picture and the rest, each in its place.
pub proof fn law_all_paths(paths: CachedPathsView, i: int)
    requires
        0 <= i < paths.extra_paths.len(),
    ensures
        paths.all().len() == paths.extra_paths.len() + 2,
        paths.all()[0] == paths.input_path,
        paths.all()[1] == paths.output_path,
        paths.all()[i + 2] == paths.extra_paths[i],
{
}

/// The names of the files: the program, the hash and the extension, in the directory.
pub proof fn law_file_names(dir: Seq<char>, key: CacheKeyView)
    ensures
        ({
            let paths = key_paths(dir, key);
            let latex = "latex_"@ + key.hash;
            let typst = "typst_"@ + key.hash;
            &&& key.backend == Backend::LaTeX ==> {
                &&& paths.input_path == crate::paths::joined(dir, latex + ".tex"@)
                &&& paths.output_path == crate::paths::joined(dir, latex + ".svg"@)
                &&& paths.extra_paths.len() == 3
                &&& paths.extra_paths[0] == crate::paths::joined(dir, latex + ".dvi"@)
                &&& paths.extra_paths[1] == crate::paths::joined(dir, latex + ".aux"@)
                &&& paths.extra_paths[2] == crate::paths::joined(dir, latex + ".log"@)
            }
            &&& key.backend == Backend::Typst ==> {
                &&& paths.input_path == crate::paths::joined(dir, typst + ".typ"@)
                &&& paths.output_path == crate::paths::joined(dir, typst + ".svg"@)
                &&& paths.extra_paths.len() == 0
            }
        }),
{
    reveal_strlit("latex");
    reveal_strlit("typst");
    reveal_strlit("_");
    reveal_strlit("latex_");
    reveal_strlit("typst_");
    assert("latex"@ + "_"@ =~= "latex_"@);
    assert("typst"@ + "_"@ =~= "typst_"@);
}

/// Two fragments have the same key exactly if the same program renders them and they have the
/// same digest.
pub proof fn law_key_of(a: Backend, x: Seq<char>, b: Backend, y: Seq<char>)
    ensures
        key_of(a, x) == key_of(b, y) <==> a == b && crate::hash::fragment_digest(x)
            == crate::hash::fragment_digest(y),
        key_of(a, x).backend == a,
        key_of(a, x).hash.len() == 16,
        crate::hash::hex_value(key_of(a, x).hash) == crate::hash::fragment_digest(x),
{
    crate::hash::law_fragment_hash_is_digest(x, y);
    crate::hash::law_hex_digits_len(crate::hash::fragment_digest(x) as int, 16);
    reveal_with_fuel(crate::hash::hex_range, 17);
    crate::hash::law_hex_digits_read_back(crate::hash::fragment_digest(x) as int, 16);
}

/// A key and the files of a formula are what their fields hold.
pub proof fn law_cache_views(key: CacheKey, paths: CachedPaths, i: int)
    requires
        0 <= i < paths.extra_paths@.len(),
    ensures
        key.deep_view().backend == key.backend,
        key.deep_view().hash == key.hash@,
        paths.deep_view().input_path == paths.input_path@,
        paths.deep_view().output_path == paths.output_path@,
        paths.deep_view().extra_paths.len() == paths.extra_paths@.len(),
        paths.deep_view().extra_paths[i] == paths.extra_paths@[i]@,
{
}

} // verus!
