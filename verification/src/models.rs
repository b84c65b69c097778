use vstd::prelude::*;
use crate::error::Error;
use crate::sorting::{lemma_permutation_map, sort_by_name, sorted_by_name, Named};
use crate::text::{ends_with, push_str, str_chars, str_ends_with, str_eq};

verus! {

/// A model downloaded into the cache.
#[derive(Debug, Clone)]
pub struct PulledModel {
    pub path: String,
    pub repo_id: String,
    pub file_size: u64,
}

/// A model found in the cache.
#[derive(Debug, Clone)]
pub struct CachedModel {
    pub repo_id: String,
    pub path: String,
    pub file_size: u64,
}

/// The cache directory name of a repository: each `/` becomes `__`.
pub open spec fn repo_dir_name_spec(s: Seq<char>) -> Seq<char>
    decreases s.len(),
{
    if s.len() == 0 {
        seq![]
    } else if s[0] == '/' {
        seq!['_', '_'] + repo_dir_name_spec(s.drop_first())
    } else {
        seq![s[0]] + repo_dir_name_spec(s.drop_first())
    }
}

/// The repository of a cache directory name: each `__`, scanning from the
/// left, becomes `/`.
pub open spec fn repo_id_spec(s: Seq<char>) -> Seq<char>
    decreases s.len(),
{
    if s.len() == 0 {
        seq![]
    } else if s.len() >= 2 && s[0] == '_' && s[1] == '_' {
        seq!['/'] + repo_id_spec(s.skip(2))
    } else {
        seq![s[0]] + repo_id_spec(s.drop_first())
    }
}

/// `repo_id.replace('/', "__")`.
pub fn repo_dir_name(repo_id: &str) -> (r: String)
    ensures
        r@ == repo_dir_name_spec(repo_id@),
{
    let cs = str_chars(repo_id);
    let mut out = String::new();
    let mut i: usize = 0;
    assert(cs@.skip(0) =~= cs@);
    while i < cs.len()
        invariant
            cs@ == repo_id@,
            i <= cs@.len(),
            out@ + repo_dir_name_spec(cs@.skip(i as int)) == repo_dir_name_spec(repo_id@),
        decreases cs@.len() - i,
    {
        let ghost rest = cs@.skip(i as int);
        assert(rest.drop_first() =~= cs@.skip(i + 1));
        let ghost before = out@;
        if cs[i] == '/' {
            out.push('_');
            out.push('_');
            assert(out@ + repo_dir_name_spec(cs@.skip(i + 1)) =~= before + repo_dir_name_spec(rest));
        } else {
            out.push(cs[i]);
            assert(out@ + repo_dir_name_spec(cs@.skip(i + 1)) =~= before + repo_dir_name_spec(rest));
        }
        i = i + 1;
    }
    assert(out@ + repo_dir_name_spec(cs@.skip(i as int)) =~= out@);
    out
}

/// `dir_name.replace("__", "/")`.
pub fn repo_id_from_dir(dir_name: &str) -> (r: String)
    ensures
        r@ == repo_id_spec(dir_name@),
{
    let cs = str_chars(dir_name);
    let mut out = String::new();
    let mut i: usize = 0;
    assert(cs@.skip(0) =~= cs@);
    while i < cs.len()
        invariant
            cs@ == dir_name@,
            i <= cs@.len(),
            out@ + repo_id_spec(cs@.skip(i as int)) == repo_id_spec(dir_name@),
        decreases cs@.len() - i,
    {
        let ghost rest = cs@.skip(i as int);
        let ghost before = out@;
        if i + 1 < cs.len() && cs[i] == '_' && cs[i + 1] == '_' {
            out.push('/');
            assert(rest.skip(2) =~= cs@.skip(i + 2));
            assert(out@ + repo_id_spec(cs@.skip(i + 2)) =~= before + repo_id_spec(rest));
            i = i + 2;
        } else {
            out.push(cs[i]);
            assert(rest.drop_first() =~= cs@.skip(i + 1));
            assert(out@ + repo_id_spec(cs@.skip(i + 1)) =~= before + repo_id_spec(rest));
            i = i + 1;
        }
    }
    assert(out@ + repo_id_spec(cs@.skip(i as int)) =~= out@);
    out
}

/// The download address of a file of a HuggingFace repository.
pub fn download_url(repo_id: &str, filename: &str) -> (r: String)
    ensures
        r@ == "https://huggingface.co/"@ + repo_id@ + "/resolve/main/"@ + filename@,
{
    let mut u = "https://huggingface.co/".to_owned();
    push_str(&mut u, repo_id);
    push_str(&mut u, "/resolve/main/");
    push_str(&mut u, filename);
    u
}

/// The address of the file listing of a HuggingFace repository.
pub fn tree_url(repo_id: &str) -> (r: String)
    ensures
        r@ == "https://huggingface.co/api/models/"@ + repo_id@ + "/tree/main"@,
{
    let mut u = "https://huggingface.co/api/models/".to_owned();
    push_str(&mut u, repo_id);
    push_str(&mut u, "/tree/main");
    u
}

/// One entry of a repository listing, as far as it has these fields.
#[derive(Debug, Clone)]
pub struct RepoEntry {
    /// The `type` field (`file` or `directory`).
    pub kind: Option<String>,
    pub path: Option<String>,
    pub size: Option<u64>,
}

/// The entry is a GGUF file.
pub open spec fn is_gguf_file(e: RepoEntry) -> bool {
    &&& e.kind matches Some(k) && k@ == "file"@
    &&& e.path matches Some(p) && ends_with(p@, ".gguf"@)
}

/// The GGUF files of a listing with their sizes (0 when not given), in order.
pub open spec fn gguf_files_spec(es: Seq<RepoEntry>) -> Seq<(Seq<char>, u64)>
    decreases es.len(),
{
    if es.len() == 0 {
        seq![]
    } else {
        let e = es.last();
        gguf_files_spec(es.drop_last()) + if is_gguf_file(e) {
            seq![
                (e.path->0@, match e.size {
                    Some(s) => s,
                    None => 0u64,
                }),
            ]
        } else {
            seq![]
        }
    }
}

/// The contents of `(name, size)` pairs.
pub open spec fn named_sizes(v: Seq<(String, u64)>) -> Seq<(Seq<char>, u64)> {
    Seq::new(v.len(), |i: int| (v[i].0@, v[i].1))
}

/// The GGUF files of a repository listing, with their sizes, in order.
pub fn gguf_files(entries: &[RepoEntry]) -> (r: Vec<(String, u64)>)
    ensures
        named_sizes(r@) == gguf_files_spec(entries@),
{
    let mut out: Vec<(String, u64)> = Vec::new();
    let mut i: usize = 0;
    while i < entries.len()
        invariant
            i <= entries@.len(),
            named_sizes(out@) == gguf_files_spec(entries@.take(i as int)),
        decreases entries@.len() - i,
    {
        let e = &entries[i];
        assert(entries@.take(i + 1).drop_last() =~= entries@.take(i as int));
        let ghost before = named_sizes(out@);
        let is_file = match &e.kind {
            Some(k) => str_eq(k.as_str(), "file"),
            None => false,
        };
        let is_gguf = match &e.path {
            Some(p) => str_ends_with(p.as_str(), ".gguf"),
            None => false,
        };
        if is_file && is_gguf {
            let size = match e.size {
                Some(s) => s,
                None => 0,
            };
            let path = match &e.path {
                Some(p) => p.clone(),
                None => String::new(),
            };
            out.push((path, size));
            assert(named_sizes(out@) =~= gguf_files_spec(entries@.take(i + 1)));
        } else {
            assert(named_sizes(out@) =~= gguf_files_spec(entries@.take(i + 1)));
        }
        i = i + 1;
    }
    assert(entries@.take(entries@.len() as int) =~= entries@);
    out
}

impl Named for CachedModel {
    open spec fn name_view(&self) -> Seq<char> {
        self.repo_id@
    }

    fn name_str(&self) -> (s: &str) {
        self.repo_id.as_str()
    }
}

/// The cached models, from the `.gguf` files found in the cache: for each,
/// the name of its directory, its path and its size.  Each directory name
/// gives the repository, and the models come sorted by repository.
pub fn cached_models(found: Vec<(String, String, u64)>) -> (r: Vec<CachedModel>)
    ensures
        r@.len() == found@.len(),
        r@.map_values(|m: CachedModel| (m.repo_id@, m.path@, m.file_size)).to_multiset()
            == found@.map_values(|f: (String, String, u64)| (repo_id_spec(f.0@), f.1@, f.2)).to_multiset(),
        sorted_by_name(r@),
{
    let mut models: Vec<CachedModel> = Vec::new();
    let mut i: usize = 0;
    while i < found.len()
        invariant
            i <= found@.len(),
            models@.len() == i,
            forall|j: int| 0 <= j < i ==> {
                let m = #[trigger] models@[j];
                m.repo_id@ == repo_id_spec(found@[j].0@) && m.path@ == found@[j].1@ && m.file_size == found@[j].2
            },
        decreases found@.len() - i,
    {
        let f = &found[i];
        let repo_id = repo_id_from_dir(f.0.as_str());
        let path = f.1.clone();
        models.push(CachedModel { repo_id, path, file_size: f.2 });
        i = i + 1;
    }
    let ghost unsorted = models@;
    proof {
        assert(unsorted.map_values(|m: CachedModel| (m.repo_id@, m.path@, m.file_size)) =~= found@.map_values(
            |f: (String, String, u64)| (repo_id_spec(f.0@), f.1@, f.2),
        ));
    }
    let sorted = sort_by_name(models);
    proof {
        broadcast use vstd::seq_lib::group_to_multiset_ensures;
        lemma_permutation_map(sorted@, unsorted, |m: CachedModel| (m.repo_id@, m.path@, m.file_size));
        assert(sorted@.len() == sorted@.to_multiset().len());
    }
    sorted
}

/// The message when a repository has no GGUF file.
pub open spec fn msg_no_gguf(repo_id: Seq<char>) -> Seq<char> {
    "no GGUF files found in "@ + repo_id
}

/// The file that a pull downloads: the first GGUF file of the listing.
pub fn pull_target(files: &Vec<(String, u64)>, repo_id: &str) -> (r: Result<(String, u64), Error>)
    ensures
        files@.len() == 0 ==> (r matches Err(Error::Other(m)) && m@ == msg_no_gguf(repo_id@)),
        files@.len() > 0 ==> (r matches Ok(t) && t.0@ == files@[0].0@ && t.1 == files@[0].1),
{
    if files.len() == 0 {
        let mut m = "no GGUF files found in ".to_owned();
        push_str(&mut m, repo_id);
        return Err(Error::Other(m));
    }
    let (name, size) = &files[0];
    Ok((name.clone(), *size))
}

/// A file already in the cache is kept, not downloaded again, when its size
/// is the size that the listing gives.
pub fn is_up_to_date(existing_size: Option<u64>, remote_size: u64) -> (b: bool)
    ensures
        b == (existing_size == Some(remote_size)),
{
    match existing_size {
        Some(s) => s == remote_size,
        None => false,
    }
}

/// No `_` is followed by `_` or `/`.
pub open spec fn no_underscore_before_sep(r: Seq<char>) -> bool {
    forall|i: int| 0 <= i < r.len() - 1 && #[trigger] r[i] == '_' ==> r[i + 1] != '_' && r[i + 1] != '/'
}

/// The cache directory of a repository lists back as that repository, when
/// no `_` of its name stands before `_` or `/` (`a_/b`, for one, lists back as
/// `a/_b`).
pub proof fn lemma_repo_dir_round_trip(r: Seq<char>)
    requires
        no_underscore_before_sep(r),
    ensures
        repo_id_spec(repo_dir_name_spec(r)) == r,
    decreases r.len(),
{
    if r.len() > 0 {
        let rest = r.drop_first();
        assert(no_underscore_before_sep(rest)) by {
            assert forall|i: int| 0 <= i < rest.len() - 1 && #[trigger] rest[i] == '_' implies rest[i + 1] != '_'
                && rest[i + 1] != '/' by {
                assert(r[i + 1] == rest[i] && r[i + 2] == rest[i + 1]);
            }
        }
        lemma_repo_dir_round_trip(rest);
        let f = repo_dir_name_spec(r);
        let fr = repo_dir_name_spec(rest);
        if r[0] == '/' {
            assert(f.skip(2) =~= fr);
            assert(f =~= seq!['_', '_'] + fr);
            assert(r =~= seq!['/'] + rest);
        } else {
            assert(f =~= seq![r[0]] + fr);
            assert(f.drop_first() =~= fr);
            if r[0] == '_' && rest.len() > 0 {
                assert(r[1] == rest[0]);
                assert(r[0] == '_');
                assert(rest[0] != '_' && rest[0] != '/');
                assert(fr =~= seq![rest[0]] + repo_dir_name_spec(rest.drop_first()));
                assert(f[1] == fr[0]);
            }
            if r[0] == '_' && rest.len() == 0 {
                assert(fr =~= Seq::<char>::empty());
            }
            assert(r =~= seq![r[0]] + rest);
        }
    }
}

} // verus!
