use crate::paths::{join_path, joined_path, path_components, path_components_of};
use vstd::prelude::*;
use vstd::utf8::encode_utf8;

verus! {

broadcast use vstd::seq_lib::group_to_multiset_ensures;

/// Why a project cannot be loaded: one of its required inputs is missing.
#[derive(Debug)]
pub enum LoaderError {
    ProjectNotFound(String),
    SpagoLockNotFound(String),
    OutputDirNotFound(String),
}

/// A project's inputs: its root, its dependency-lock manifest, its
/// documentation root, and the module documents found there, in order.
#[derive(Debug)]
pub struct ProjectDiscovery {
    pub project_path: String,
    pub spago_lock_path: String,
    pub output_dir: String,
    pub docs_json_files: Vec<String>,
}

/// Byte-wise lexicographic order, a proper prefix first.
pub open spec fn bytes_less(a: Seq<u8>, b: Seq<u8>) -> bool
    decreases a.len(),
{
    if a.len() == 0 {
        b.len() > 0
    } else if b.len() == 0 {
        false
    } else if a[0] != b[0] {
        a[0] < b[0]
    } else {
        bytes_less(a.drop_first(), b.drop_first())
    }
}

/// Component-wise lexicographic order of paths, each component compared by
/// its bytes, a proper prefix first.
pub open spec fn components_less(a: Seq<Seq<u8>>, b: Seq<Seq<u8>>) -> bool
    decreases a.len(),
{
    if a.len() == 0 {
        b.len() > 0
    } else if b.len() == 0 {
        false
    } else if a[0] != b[0] {
        bytes_less(a[0], b[0])
    } else {
        components_less(a.drop_first(), b.drop_first())
    }
}

/// The components of the path `s`, each as its UTF-8 bytes.
pub open spec fn path_key(s: Seq<char>) -> Seq<Seq<u8>> {
    path_components(s).map_values(|c: Seq<char>| encode_utf8(c))
}

/// The order in which paths are listed.
pub open spec fn path_less(a: Seq<char>, b: Seq<char>) -> bool {
    components_less(path_key(a), path_key(b))
}

/// Whether the path `s` names a module document: its last component is `docs.json`.
pub open spec fn is_docs_file(s: Seq<char>) -> bool {
    let c = path_components(s);
    c.len() > 0 && c.last() == "docs.json"@
}

/// Whether the paths `s` are listed in order.
pub open spec fn paths_sorted(s: Seq<String>) -> bool {
    forall|i: int| 0 <= i < s.len() - 1 ==> !path_less(#[trigger] s[i + 1]@, s[i]@)
}

/// The manifest of the project at `root`.
pub open spec fn manifest_path_of(root: Seq<char>) -> Seq<char> {
    joined_path(root, "spago.lock"@)
}

/// The documentation root of the project at `root`.
pub open spec fn docs_root_of(root: Seq<char>) -> Seq<char> {
    joined_path(root, "output"@)
}

/// The components held by a precomputed path key.
pub open spec fn key_view(k: Vec<Vec<u8>>) -> Seq<Seq<u8>> {
    k@.map_values(|c: Vec<u8>| c@)
}

proof fn lemma_bytes_less_asymmetric(a: Seq<u8>, b: Seq<u8>)
    ensures
        bytes_less(a, b) ==> !bytes_less(b, a),
    decreases a.len(),
{
    if a.len() > 0 && b.len() > 0 && a[0] == b[0] {
        lemma_bytes_less_asymmetric(a.drop_first(), b.drop_first());
    }
}

proof fn lemma_components_less_asymmetric(a: Seq<Seq<u8>>, b: Seq<Seq<u8>>)
    ensures
        components_less(a, b) ==> !components_less(b, a),
    decreases a.len(),
{
    if a.len() > 0 && b.len() > 0 {
        if a[0] == b[0] {
            lemma_components_less_asymmetric(a.drop_first(), b.drop_first());
        } else {
            lemma_bytes_less_asymmetric(a[0], b[0]);
        }
    }
}

fn bytes_less_exec(a: &Vec<u8>, b: &Vec<u8>) -> (r: bool)
    ensures
        r == bytes_less(a@, b@),
{
    let mut i: usize = 0;
    assert(a@.skip(0) =~= a@);
    assert(b@.skip(0) =~= b@);
    while i < a.len() && i < b.len() && a[i] == b[i]
        invariant
            i <= a@.len(),
            i <= b@.len(),
            bytes_less(a@, b@) == bytes_less(a@.skip(i as int), b@.skip(i as int)),
        decreases a@.len() - i,
    {
        proof {
            assert(a@.skip(i as int).drop_first() =~= a@.skip(i + 1));
            assert(b@.skip(i as int).drop_first() =~= b@.skip(i + 1));
        }
        i = i + 1;
    }
    if i == a.len() {
        i < b.len()
    } else if i == b.len() {
        false
    } else {
        a[i] < b[i]
    }
}

fn components_less_exec(a: &Vec<Vec<u8>>, b: &Vec<Vec<u8>>) -> (r: bool)
    ensures
        r == components_less(key_view(*a), key_view(*b)),
{
    let ghost av = a@.map_values(|c: Vec<u8>| c@);
    let ghost bv = b@.map_values(|c: Vec<u8>| c@);
    let mut i: usize = 0;
    assert(av.skip(0) =~= av);
    assert(bv.skip(0) =~= bv);
    loop
        invariant
            i <= a@.len(),
            i <= b@.len(),
            av == a@.map_values(|c: Vec<u8>| c@),
            bv == b@.map_values(|c: Vec<u8>| c@),
            components_less(av, bv) == components_less(av.skip(i as int), bv.skip(i as int)),
        decreases a@.len() - i,
    {
        if i == a.len() {
            return i < b.len();
        }
        if i == b.len() {
            return false;
        }
        let ca = &a[i];
        let cb = &b[i];
        let mut same = ca.len() == cb.len();
        let mut k: usize = 0;
        while same && k < ca.len()
            invariant
                k <= ca@.len(),
                same ==> ca@.len() == cb@.len(),
                same ==> ca@.take(k as int) == cb@.take(k as int),
                !same ==> ca@ != cb@,
            decreases ca@.len() - k,
        {
            if ca[k] != cb[k] {
                same = false;
            } else {
                assert(ca@.take(k + 1) =~= ca@.take(k as int).push(ca@[k as int]));
                assert(cb@.take(k + 1) =~= cb@.take(k as int).push(cb@[k as int]));
            }
            k = k + 1;
        }
        proof {
            if same {
                assert(ca@ =~= ca@.take(k as int));
                assert(cb@ =~= cb@.take(k as int));
            }
            assert(av.skip(i as int)[0] == ca@);
            assert(bv.skip(i as int)[0] == cb@);
        }
        if !same {
            return bytes_less_exec(ca, cb);
        }
        proof {
            assert(av.skip(i as int).drop_first() =~= av.skip(i + 1));
            assert(bv.skip(i as int).drop_first() =~= bv.skip(i + 1));
        }
        i = i + 1;
    }
}

fn path_key_exec(s: &str) -> (r: Vec<Vec<u8>>)
    ensures
        key_view(r) == path_key(s@),
{
    let comps = path_components_of(s);
    let ghost cv = comps@.map_values(|c: String| c@);
    let mut out: Vec<Vec<u8>> = Vec::new();
    let mut i: usize = 0;
    while i < comps.len()
        invariant
            i <= comps@.len(),
            cv == comps@.map_values(|c: String| c@),
            cv == path_components(s@),
            out@.map_values(|c: Vec<u8>| c@) == cv.take(i as int).map_values(
                |c: Seq<char>| encode_utf8(c),
            ),
        decreases comps@.len() - i,
    {
        let ghost before = out@;
        out.push(comps[i].as_str().as_bytes_vec());
        proof {
            assert(cv.take(i + 1) =~= cv.take(i as int).push(cv[i as int]));
            assert(out@.map_values(|c: Vec<u8>| c@) =~= before.map_values(|c: Vec<u8>| c@).push(
                encode_utf8(cv[i as int]),
            ));
        }
        i = i + 1;
    }
    proof {
        assert(cv.take(cv.len() as int) =~= cv);
    }
    out
}

proof fn lemma_insert_multiset<A>(s: Seq<A>, p: int, x: A)
    requires
        0 <= p <= s.len(),
    ensures
        s.insert(p, x).to_multiset() =~= s.to_multiset().insert(x),
{
    let t = s.insert(p, x);
    assert(t.remove(p) =~= s);
    assert(t[p] == x);
    assert(t.contains(x));
}

/// `paths` listed in order.
pub fn sort_paths(paths: Vec<String>) -> (r: Vec<String>)
    ensures
        r@.to_multiset() == paths@.to_multiset(),
        paths_sorted(r@),
{
    let ghost ps = paths@;
    let n = paths.len();
    let mut pending = crate::vecs::reversed(paths);
    let mut out: Vec<String> = Vec::new();
    let mut keys: Vec<Vec<Vec<u8>>> = Vec::new();
    let mut j: usize = 0;
    proof {
        assert(ps.take(0) =~= Seq::<String>::empty());
    }
    while j < n
        invariant
            n == ps.len(),
            j <= n,
            pending@.len() == n - j,
            forall|k: int| 0 <= k < n - j ==> #[trigger] pending@[k] == ps[n - 1 - k],
            out@.to_multiset() == ps.take(j as int).to_multiset(),
            paths_sorted(out@),
            keys@.len() == out@.len(),
            forall|k: int|
                0 <= k < out@.len() ==> key_view(#[trigger] keys@[k]) == path_key(
                    out@[k]@,
                ),
        decreases n - j,
    {
        let x = pending.pop().unwrap();
        assert(x == ps[j as int]);
        let kx = path_key_exec(x.as_str());
        let mut p: usize = 0;
        while p < out.len() && !components_less_exec(&kx, &keys[p])
            invariant
                p <= out@.len(),
                keys@.len() == out@.len(),
                key_view(kx) == path_key(x@),
                forall|k: int|
                    0 <= k < out@.len() ==> key_view(#[trigger] keys@[k])
                        == path_key(out@[k]@),
                p > 0 ==> !path_less(x@, out@[p - 1]@),
            decreases out@.len() - p,
        {
            p = p + 1;
        }
        let ghost old_out = out@;
        proof {
            if p < old_out.len() {
                assert(path_less(x@, old_out[p as int]@));
                lemma_components_less_asymmetric(path_key(x@), path_key(old_out[p as int]@));
            }
            lemma_insert_multiset(old_out, p as int, x);
            assert(ps.take(j + 1) =~= ps.take(j as int).push(x));
        }
        out.insert(p, x);
        keys.insert(p, kx);
        proof {
            assert(out@ == old_out.insert(p as int, x));
            assert forall|i: int| 0 <= i < out@.len() - 1 implies !path_less(
                #[trigger] out@[i + 1]@,
                out@[i]@,
            ) by {
                if i + 1 < p {
                    assert(out@[i + 1] == old_out[i + 1]);
                    assert(out@[i] == old_out[i]);
                    assert(!path_less(old_out[i + 1]@, old_out[i]@));
                } else if i + 1 == p {
                    assert(out@[i] == old_out[i]);
                    assert(out@[i + 1] == x);
                } else if i == p {
                    assert(out@[i] == x);
                    assert(out@[i + 1] == old_out[i]);
                } else {
                    assert(out@[i + 1] == old_out[i]);
                    assert(out@[i] == old_out[i - 1]);
                    let h = i - 1;
                    assert(!path_less(old_out[h + 1]@, old_out[h]@));
                }
            }
        }
        j = j + 1;
    }
    proof {
        assert(ps.take(n as int) =~= ps);
    }
    out
}

/// The entries of `entries` that name module documents, in their order.
pub fn select_docs_files(entries: Vec<String>) -> (r: Vec<String>)
    ensures
        r@ == entries@.filter(|e: String| is_docs_file(e@)),
{
    let ghost es = entries@;
    let n = entries.len();
    let mut pending = crate::vecs::reversed(entries);
    let mut out: Vec<String> = Vec::new();
    let mut j: usize = 0;
    proof {
        reveal(Seq::filter);
        assert(es.take(0) =~= Seq::<String>::empty());
    }
    while j < n
        invariant
            n == es.len(),
            j <= n,
            pending@.len() == n - j,
            forall|k: int| 0 <= k < n - j ==> #[trigger] pending@[k] == es[n - 1 - k],
            out@ == es.take(j as int).filter(|e: String| is_docs_file(e@)),
        decreases n - j,
    {
        let e = pending.pop().unwrap();
        assert(e == es[j as int]);
        proof {
            reveal(Seq::filter);
            assert(es.take(j + 1).drop_last() =~= es.take(j as int));
        }
        let comps = path_components_of(e.as_str());
        let ghost cv = comps@.map_values(|c: String| c@);
        let k = comps.len();
        let keep = if k > 0 {
            assert(comps@[k - 1]@ == cv.last());
            comps[k - 1] == String::from_str("docs.json")
        } else {
            false
        };
        if keep {
            out.push(e);
        }
        j = j + 1;
    }
    proof {
        assert(es.take(n as int) =~= es);
    }
    out
}

/// The path of the dependency-lock manifest of the project at `project_path`.
pub fn manifest_path(project_path: &str) -> (r: String)
    ensures
        r@ == manifest_path_of(project_path@),
{
    join_path(project_path, "spago.lock")
}

/// The path of the documentation root of the project at `project_path`.
pub fn docs_root_path(project_path: &str) -> (r: String)
    ensures
        r@ == docs_root_of(project_path@),
{
    join_path(project_path, "output")
}

impl ProjectDiscovery {
    /// Checks, in order, that the project root, its manifest and its
    /// documentation root exist, failing on the first that does not; then
    /// lists the module documents among `entries` (everything found exactly
    /// two directory levels below the documentation root) in path order.
    pub fn discover(
        project_path: &str,
        root_exists: bool,
        manifest_exists: bool,
        docs_root_exists: bool,
        entries: Vec<String>,
    ) -> (r: Result<ProjectDiscovery, LoaderError>)
        ensures
            !root_exists ==> (r matches Err(LoaderError::ProjectNotFound(p)) && p@ == project_path@),
            root_exists && !manifest_exists ==> (r matches Err(LoaderError::SpagoLockNotFound(p))
                && p@ == manifest_path_of(project_path@)),
            root_exists && manifest_exists && !docs_root_exists ==> (r matches Err(
                LoaderError::OutputDirNotFound(p),
            ) && p@ == docs_root_of(project_path@)),
            root_exists && manifest_exists && docs_root_exists ==> (r matches Ok(d) && d.project_path@
                == project_path@ && d.spago_lock_path@ == manifest_path_of(project_path@)
                && d.output_dir@ == docs_root_of(project_path@) && d.docs_json_files@.to_multiset()
                == entries@.filter(|e: String| is_docs_file(e@)).to_multiset() && paths_sorted(
                d.docs_json_files@,
            )),
    {
        if !root_exists {
            return Err(LoaderError::ProjectNotFound(project_path.to_owned()));
        }
        let spago_lock_path = manifest_path(project_path);
        if !manifest_exists {
            return Err(LoaderError::SpagoLockNotFound(spago_lock_path));
        }
        let output_dir = docs_root_path(project_path);
        if !docs_root_exists {
            return Err(LoaderError::OutputDirNotFound(output_dir));
        }
        let docs_json_files = sort_paths(select_docs_files(entries));
        Ok(
            ProjectDiscovery {
                project_path: project_path.to_owned(),
                spago_lock_path,
                output_dir,
                docs_json_files,
            },
        )
    }

    /// The number of module documents discovered.
    pub fn module_count(&self) -> (r: usize)
        ensures
            r == self.docs_json_files@.len(),
    {
        self.docs_json_files.len()
    }
}

} // verus!
