//! Paths as text: joining a component onto a path and taking a path's last
//! component, as `std::path` does on Unix.
use vstd::prelude::*;

use crate::text::chars_of;

verus! {

/// `comp` appended to `base` as `PathBuf::push` does on Unix: an absolute
/// component replaces the path; otherwise a `/` separates the two unless `base`
/// is empty or already ends with one.
pub open spec fn path_join(base: Seq<char>, comp: Seq<char>) -> Seq<char> {
    if comp.len() > 0 && comp[0] == '/' {
        comp
    } else if base.len() == 0 || base.last() == '/' {
        base + comp
    } else {
        base + seq!['/'] + comp
    }
}

/// `base` joined with `comp`.
pub fn join(base: &str, comp: &str) -> (p: String)
    ensures
        p@ == path_join(base@, comp@),
{
    let comp_len = comp.unicode_len();
    if comp_len > 0 && comp.get_char(0) == '/' {
        return comp.to_owned();
    }
    let base_len = base.unicode_len();
    let mut p = base.to_owned();
    if base_len > 0 && base.get_char(base_len - 1) != '/' {
        p.append("/");
        proof {
            reveal_strlit("/");
        }
    }
    p.append(comp);
    p
}

/// Where the path component that ends at `j` starts: just after the `/` before
/// it, or at the start.
pub open spec fn component_start(p: Seq<char>, j: int) -> int
    decreases j,
{
    if j <= 0 {
        0
    } else if p[j - 1] == '/' {
        j
    } else {
        component_start(p, j - 1)
    }
}

/// The last component among the first `j` characters of `p` that is neither
/// empty nor `.`; `None` when there is none or it is `..`.
pub open spec fn file_name_within(p: Seq<char>, j: int) -> Option<Seq<char>>
    decreases j,
{
    if j <= 0 {
        None
    } else if p[j - 1] == '/' {
        file_name_within(p, j - 1)
    } else {
        let i = component_start(p, j);
        let c = p.subrange(i, j);
        if c == seq!['.'] {
            if 0 <= i && i < j {
                file_name_within(p, i)
            } else {
                None
            }
        } else if c == seq!['.', '.'] {
            None
        } else {
            Some(c)
        }
    }
}

/// The final component of a path, as `Path::file_name` gives it: the last
/// component that is neither empty nor `.`, unless that is `..`.
pub open spec fn file_name_of(p: Seq<char>) -> Option<Seq<char>> {
    file_name_within(p, p.len() as int)
}

proof fn lemma_component_start(p: Seq<char>, j: int)
    requires
        0 <= j <= p.len(),
    ensures
        0 <= component_start(p, j) <= j,
        forall|k: int| component_start(p, j) <= k < j ==> p[k] != '/',
        component_start(p, j) > 0 ==> p[component_start(p, j) - 1] == '/',
    decreases j,
{
    if j > 0 && p[j - 1] != '/' {
        lemma_component_start(p, j - 1);
    }
}

/// The final component of `path`.
pub fn file_name(path: &str) -> (r: Option<String>)
    ensures
        match r {
            Some(n) => file_name_of(path@) == Some(n@),
            None => file_name_of(path@) is None,
        },
{
    let cs = chars_of(path);
    let mut j: usize = cs.len();
    loop
        invariant
            cs@ == path@,
            j <= cs@.len(),
            file_name_of(path@) == file_name_within(path@, j as int),
        decreases j,
    {
        if j == 0 {
            return None;
        }
        if cs[j - 1] == '/' {
            j = j - 1;
        } else {
            let mut i: usize = j - 1;
            while i > 0 && cs[i - 1] != '/'
                invariant
                    cs@ == path@,
                    i < j <= cs@.len(),
                    path@[j - 1] != '/',
                    component_start(path@, j as int) == component_start(path@, i as int + 1),
                    path@[i as int] != '/',
                decreases i,
            {
                i = i - 1;
            }
            proof {
                lemma_component_start(path@, j as int);
            }
            assert(component_start(path@, i as int + 1) == component_start(path@, i as int));
            assert(component_start(path@, j as int) == i);
            let len = j - i;
            let is_dot = len == 1 && cs[i] == '.';
            let is_dot_dot = len == 2 && cs[i] == '.' && cs[i + 1] == '.';
            let ghost c = path@.subrange(i as int, j as int);
            if is_dot {
                assert(c =~= seq!['.']);
                j = i;
            } else if is_dot_dot {
                assert(c =~= seq!['.', '.']);
                return None;
            } else {
                assert(c.len() == len);
                assert(len >= 1 ==> c[0] == cs@[i as int]);
                assert(len >= 2 ==> c[1] == cs@[i + 1]);
                assert(c != seq!['.']) by {
                    if c == seq!['.'] {
                        assert(c[0] == '.');
                    }
                }
                assert(c != seq!['.', '.']) by {
                    if c == seq!['.', '.'] {
                        assert(c[0] == '.' && c[1] == '.');
                    }
                }
                let n = path.substring_char(i, j);
                return Some(n.to_owned());
            }
        }
    }
}

/// A single plain path component: not empty, no `/`, and neither `.` nor `..`.
pub open spec fn plain_component(n: Seq<char>) -> bool {
    n.len() > 0 && !n.contains('/') && n != seq!['.'] && n != seq!['.', '.']
}

proof fn lemma_component_start_at(p: Seq<char>, s: int, j: int)
    requires
        0 <= s <= j <= p.len(),
        forall|k: int| s <= k < j ==> p[k] != '/',
        s == 0 || p[s - 1] == '/',
    ensures
        component_start(p, j) == s,
    decreases j,
{
    if j > s {
        lemma_component_start_at(p, s, j - 1);
    }
}

/// Joining a plain component onto a path and taking the final component gives
/// the component back.
pub proof fn lemma_file_name_of_join(base: Seq<char>, n: Seq<char>)
    requires
        plain_component(n),
    ensures
        file_name_of(path_join(base, n)) == Some(n),
{
    assert(n[0] != '/') by {
        if n[0] == '/' {
            assert(n.contains('/'));
        }
    }
    let prefix = if base.len() == 0 || base.last() == '/' {
        base
    } else {
        base + seq!['/']
    };
    let p = prefix + n;
    assert(path_join(base, n) == p);
    let s = prefix.len() as int;
    let l = p.len() as int;
    assert(p.subrange(s, l) =~= n);
    assert forall|k: int| s <= k < l implies p[k] != '/' by {
        assert(p[k] == n[k - s]);
        if n[k - s] == '/' {
            assert(n.contains('/'));
        }
    }
    assert(s == 0 || p[s - 1] == '/');
    lemma_component_start_at(p, s, l);
    assert(p[l - 1] != '/');
    assert(file_name_within(p, l) == Some(n));
}

} // verus!
