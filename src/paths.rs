use vstd::prelude::*;

verus! {

/// The pieces of `s` between `/` separators, empty pieces included;
/// never empty itself.
pub open spec fn split_path(s: Seq<char>) -> Seq<Seq<char>>
    decreases s.len(),
{
    if s.len() == 0 {
        seq![Seq::<char>::empty()]
    } else {
        let prev = split_path(s.drop_last());
        if s.last() == '/' {
            prev.push(Seq::<char>::empty())
        } else {
            prev.update(prev.len() - 1, prev.last().push(s.last()))
        }
    }
}

/// Whether a piece of a path names a component: empty pieces (repeated or
/// trailing separators) and `.` do not.
pub open spec fn is_component(seg: Seq<char>) -> bool {
    seg.len() > 0 && seg != seq!['.']
}

/// The components of a `/`-separated path, in order.
pub open spec fn path_components(s: Seq<char>) -> Seq<Seq<char>> {
    split_path(s).filter(|seg: Seq<char>| is_component(seg))
}

/// Name of the directory that holds the file `s` names: the component before
/// the last one, unless there is none or it is `..`.
pub open spec fn module_name_of(s: Seq<char>) -> Option<Seq<char>> {
    let c = path_components(s);
    if c.len() >= 2 && c[c.len() - 2] != seq!['.', '.'] {
        Some(c[c.len() - 2])
    } else {
        None
    }
}

/// `name` appended to the path `base`, with one separator between them
/// unless `base` is empty or already ends in one.
pub open spec fn joined_path(base: Seq<char>, name: Seq<char>) -> Seq<char> {
    if base.len() == 0 || base.last() == '/' {
        base + name
    } else {
        base + seq!['/'] + name
    }
}

proof fn lemma_split_nonempty(s: Seq<char>)
    ensures
        split_path(s).len() >= 1,
    decreases s.len(),
{
    if s.len() > 0 {
        lemma_split_nonempty(s.drop_last());
    }
}

proof fn lemma_filter_push(a: Seq<Seq<char>>, x: Seq<char>)
    ensures
        a.push(x).filter(|seg: Seq<char>| is_component(seg)) == if is_component(x) {
            a.filter(|seg: Seq<char>| is_component(seg)).push(x)
        } else {
            a.filter(|seg: Seq<char>| is_component(seg))
        },
{
    reveal(Seq::filter);
    assert(a.push(x).drop_last() =~= a);
}

/// The components of `s`, each as a string, in order.
pub fn path_components_of(s: &str) -> (r: Vec<String>)
    ensures
        r@.map_values(|c: String| c@) == path_components(s@),
{
    let n = s.unicode_len();
    let mut out: Vec<String> = Vec::new();
    let mut start: usize = 0;
    let mut i: usize = 0;
    proof {
        assert(s@.take(0) =~= Seq::<char>::empty());
        reveal(Seq::filter);
        assert(split_path(s@.take(0)).drop_last() =~= Seq::<Seq<char>>::empty());
        assert(s@.subrange(0, 0) =~= Seq::<char>::empty());
    }
    while i < n
        invariant
            n == s@.len(),
            0 <= start <= i <= n,
            split_path(s@.take(i as int)).last() == s@.subrange(start as int, i as int),
            out@.map_values(|c: String| c@) == split_path(s@.take(i as int)).drop_last().filter(
                |seg: Seq<char>| is_component(seg),
            ),
        decreases n - i,
    {
        let ghost pre = s@.take(i as int);
        let ghost post = s@.take(i + 1);
        proof {
            assert(post.drop_last() =~= pre);
            lemma_split_nonempty(pre);
        }
        let c = s.get_char(i);
        if c == '/' {
            let seg = s.substring_char(start, i);
            let ghost old_out = out@;
            proof {
                lemma_filter_push(split_path(pre).drop_last(), seg@);
                assert(split_path(pre).drop_last().push(seg@) =~= split_path(pre));
                assert(split_path(post).drop_last() =~= split_path(pre));
            }
            let sl = seg.unicode_len();
            if sl > 0 && !(sl == 1 && seg.get_char(0) == '.') {
                out.push(seg.to_owned());
                proof {
                    assert(is_component(seg@));
                    assert(out@.map_values(|c: String| c@) =~= old_out.map_values(|c: String| c@).push(seg@));
                }
            } else {
                proof {
                    if seg@.len() == 1 {
                        assert(seg@ =~= seq!['.']);
                    }
                    assert(!is_component(seg@));
                }
            }
            start = i + 1;
            proof {
                assert(s@.subrange(start as int, i + 1) =~= Seq::<char>::empty());
            }
        } else {
            proof {
                let sp = split_path(pre);
                assert(split_path(post) == sp.update(sp.len() - 1, sp.last().push(c)));
                assert(split_path(post).drop_last() =~= sp.drop_last());
                assert(s@.subrange(start as int, i + 1) =~= s@.subrange(start as int, i as int).push(c));
            }
        }
        i = i + 1;
    }
    proof {
        assert(s@.take(n as int) =~= s@);
        lemma_split_nonempty(s@);
        assert(split_path(s@).drop_last().push(split_path(s@).last()) =~= split_path(s@));
    }
    let seg = s.substring_char(start, n);
    let ghost old_out = out@;
    proof {
        lemma_filter_push(split_path(s@).drop_last(), seg@);
    }
    let sl = seg.unicode_len();
            if sl > 0 && !(sl == 1 && seg.get_char(0) == '.') {
        out.push(seg.to_owned());
        proof {
            assert(out@.map_values(|c: String| c@) =~= old_out.map_values(|c: String| c@).push(seg@));
        }
    } else {
        proof {
            if seg@.len() == 1 {
                assert(seg@ =~= seq!['.']);
            }
        }
    }
    out
}

/// Extracts the module name from the path of a module document: the name of
/// the directory that holds it (`/out/Data.Maybe/docs.json` gives `Data.Maybe`).
pub fn module_name_from_path(docs_path: &str) -> (r: Option<String>)
    ensures
        r matches Some(n) ==> module_name_of(docs_path@) == Some(n@),
        r is None ==> module_name_of(docs_path@) is None,
{
    let comps = path_components_of(docs_path);
    let ghost cv = comps@.map_values(|c: String| c@);
    let n = comps.len();
    if n >= 2 {
        let dir = &comps[n - 2];
        assert(dir@ == cv[n - 2]);
        let dl = dir.unicode_len();
        if dl == 2 && dir.get_char(0) == '.' && dir.get_char(1) == '.' {
            assert(dir@ =~= seq!['.', '.']);
            None
        } else {
            assert(dir@ != seq!['.', '.']) by {
                if dl == 2 {
                    assert(seq!['.', '.'][0] == '.');
                    assert(seq!['.', '.'][1] == '.');
                }
            }
            Some(dir.clone())
        }
    } else {
        None
    }
}

/// The path `name` inside the directory `base`.
pub fn join_path(base: &str, name: &str) -> (r: String)
    ensures
        r@ == joined_path(base@, name@),
{
    let n = base.unicode_len();
    let mut out = base.to_owned();
    if n > 0 && base.get_char(n - 1) != '/' {
        out.append("/");
        proof {
            reveal_strlit("/");
        }
    }
    out.append(name);
    proof {
        if n > 0 {
            assert(base@.last() == base@[n - 1]);
        }
    }
    out
}

} // verus!
