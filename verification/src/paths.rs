//! Path derivation on `/`-separated path strings: the base name of an
//! input file without its extension, and the sibling output path with the
//! extension replaced by `json`.

use vstd::prelude::*;
use crate::text::{chars_of, string_from_chars};

verus! {

/// Index of the last `/` in `p`, or `-1` when there is none.
pub open spec fn last_slash(p: Seq<char>) -> int
    decreases p.len(),
{
    if p.len() == 0 {
        -1
    } else if p.last() == '/' {
        p.len() - 1
    } else {
        last_slash(p.drop_last())
    }
}

/// The final component of `p`: everything after the last `/`.
pub open spec fn component_of(p: Seq<char>) -> Seq<char> {
    p.skip(last_slash(p) + 1)
}

/// Index of the last `.` of `s` that does not stand first, or `-1`: a name
/// whose only dot leads (a hidden file) has no extension.
pub open spec fn last_dot(s: Seq<char>) -> int
    decreases s.len(),
{
    if s.len() < 2 {
        -1
    } else if s.last() == '.' {
        s.len() - 1
    } else {
        last_dot(s.drop_last())
    }
}

/// The component without its extension.
pub open spec fn stem_of(s: Seq<char>) -> Seq<char> {
    if last_dot(s) > 0 {
        s.take(last_dot(s))
    } else {
        s
    }
}

/// A component that names no file of its own: the current or the parent
/// directory.
pub open spec fn is_dot_component(c: Seq<char>) -> bool {
    (c.len() == 1 && c[0] == '.') || (c.len() == 2 && c[0] == '.' && c[1] == '.')
}

/// The root name a document takes from its input path: the stem of the
/// final component, or `result` when the path has no final component with
/// a stem of its own (nothing after the last `/`, or only `.` or `..`).
pub open spec fn root_name_of(p: Seq<char>) -> Seq<char> {
    if component_of(p).len() == 0 || is_dot_component(component_of(p)) {
        seq!['r', 'e', 's', 'u', 'l', 't']
    } else {
        stem_of(component_of(p))
    }
}

/// The output path: the input path with the component's extension replaced
/// by `json` (or `.json` appended when it has no extension). A path whose
/// final component is `.` or `..` names no file and stays unchanged.
pub open spec fn json_path_of(p: Seq<char>) -> Seq<char> {
    if is_dot_component(component_of(p)) {
        p
    } else {
        p.take(last_slash(p) + 1) + stem_of(component_of(p)) + seq!['.', 'j', 's', 'o', 'n']
    }
}

proof fn lemma_last_slash_at(s: Seq<char>, k: int)
    requires
        0 <= k <= s.len(),
        forall|m: int| k <= m < s.len() ==> (#[trigger] s[m]) != '/',
        k == 0 || s[k - 1] == '/',
    ensures
        last_slash(s) == k - 1,
    decreases s.len(),
{
    if k == s.len() {
        if k > 0 {
            assert(s.last() == '/');
        }
    } else {
        assert(s.last() != '/');
        lemma_last_slash_at(s.drop_last(), k);
    }
}

proof fn lemma_last_dot_at(s: Seq<char>, j: int)
    requires
        1 <= j < s.len(),
        s[j] == '.',
        forall|m: int| j < m < s.len() ==> (#[trigger] s[m]) != '.',
    ensures
        last_dot(s) == j,
    decreases s.len(),
{
    if j == s.len() - 1 {
    } else {
        assert(s.last() != '.');
        lemma_last_dot_at(s.drop_last(), j);
    }
}

proof fn lemma_last_dot_none(s: Seq<char>)
    requires
        forall|m: int| 1 <= m < s.len() ==> (#[trigger] s[m]) != '.',
    ensures
        last_dot(s) == -1,
    decreases s.len(),
{
    if s.len() >= 2 {
        assert(s.last() != '.');
        lemma_last_dot_none(s.drop_last());
    }
}

/// Where the final component of `v` begins, and where its stem ends.
fn component_bounds(v: &Vec<char>) -> (r: (usize, usize))
    ensures
        r.0 == last_slash(v@) + 1,
        r.0 <= r.1 <= v@.len(),
        v@.skip(r.0 as int).len() == 0 ==> r.1 == v@.len(),
        stem_of(component_of(v@)) == v@.subrange(r.0 as int, r.1 as int),
{
    let ghost s = v@;
    let n = v.len();
    let mut cs = n;
    while cs > 0 && v[cs - 1] != '/'
        invariant
            cs <= n,
            n == s.len(),
            v@ == s,
            forall|m: int| cs <= m < n ==> (#[trigger] s[m]) != '/',
        decreases cs,
    {
        cs = cs - 1;
    }
    proof {
        lemma_last_slash_at(s, cs as int);
    }
    let ghost comp = component_of(s);
    proof {
        assert(comp =~= s.subrange(cs as int, n as int));
    }
    if cs == n {
        proof {
            assert(stem_of(comp) =~= s.subrange(cs as int, n as int));
        }
        return (cs, n);
    }
    // Find the last dot strictly inside the component.
    let mut k = n;
    while k > cs + 1 && v[k - 1] != '.'
        invariant
            n == s.len(),
            v@ == s,
            cs <= n,
            k <= n,
            k > cs,
            forall|m: int| k <= m < n ==> (#[trigger] s[m]) != '.',
        decreases k,
    {
        k = k - 1;
    }
    let stem_end: usize = if k > cs + 1 {
        proof {
            assert(comp[k - 1 - cs] == '.');
            assert forall|m: int| k - 1 - cs < m < comp.len() implies (#[trigger] comp[m])
                != '.' by {
                assert(comp[m] == s[m + cs]);
            }
            lemma_last_dot_at(comp, k - 1 - cs);
            assert(stem_of(comp) =~= s.subrange(cs as int, (k - 1) as int));
        }
        k - 1
    } else {
        proof {
            assert forall|m: int| 1 <= m < comp.len() implies (#[trigger] comp[m]) != '.' by {
                assert(comp[m] == s[m + cs]);
            }
            lemma_last_dot_none(comp);
            assert(stem_of(comp) =~= s.subrange(cs as int, n as int));
        }
        n
    };
    (cs, stem_end)
}

/// Whether the component starting at `cs` is `.` or `..`.
fn dot_component_at(v: &Vec<char>, cs: usize) -> (r: bool)
    requires
        cs <= v@.len(),
    ensures
        r == is_dot_component(v@.skip(cs as int)),
{
    let n = v.len();
    proof {
        assert(v@.skip(cs as int).len() == n - cs);
        if n - cs >= 1 {
            assert(v@.skip(cs as int)[0] == v@[cs as int]);
        }
        if n - cs >= 2 {
            assert(v@.skip(cs as int)[1] == v@[cs as int + 1]);
        }
    }
    if n - cs == 1 {
        v[cs] == '.'
    } else if n - cs == 2 {
        v[cs] == '.' && v[cs + 1] == '.'
    } else {
        false
    }
}

/// The root name for `path`, as characters.
pub fn root_name_chars(path: &str) -> (r: Vec<char>)
    ensures
        r@ == root_name_of(path@),
{
    let v = chars_of(path);
    let (cs, stem_end) = component_bounds(&v);
    let n = v.len();
    if cs == n || dot_component_at(&v, cs) {
        let mut out: Vec<char> = Vec::new();
        out.push('r');
        out.push('e');
        out.push('s');
        out.push('u');
        out.push('l');
        out.push('t');
        proof {
            assert(out@ =~= root_name_of(path@));
        }
        return out;
    }
    let mut out: Vec<char> = Vec::new();
    let mut i = cs;
    while i < stem_end
        invariant
            cs <= i <= stem_end <= n,
            n == v@.len(),
            v@ == path@,
            out@ == v@.subrange(cs as int, i as int),
        decreases stem_end - i,
    {
        let c = v[i];
        out.push(c);
        proof {
            assert(out@ =~= v@.subrange(cs as int, i + 1 as int));
        }
        i = i + 1;
    }
    proof {
        assert(component_of(path@).len() > 0);
    }
    out
}

/// The output path for `sql_path`: extension replaced by `json`.
pub fn json_path_string(sql_path: &str) -> (r: String)
    ensures
        r@ == json_path_of(sql_path@),
{
    let v = chars_of(sql_path);
    let (cs, stem_end) = component_bounds(&v);
    if dot_component_at(&v, cs) {
        return string_from_chars(&v);
    }
    let mut out: Vec<char> = Vec::new();
    let mut i: usize = 0;
    while i < stem_end
        invariant
            i <= stem_end <= v@.len(),
            v@ == sql_path@,
            out@ == v@.take(i as int),
        decreases stem_end - i,
    {
        let c = v[i];
        out.push(c);
        proof {
            assert(out@ =~= v@.take(i + 1 as int));
        }
        i = i + 1;
    }
    out.push('.');
    out.push('j');
    out.push('s');
    out.push('o');
    out.push('n');
    proof {
        assert(v@.take(cs as int) + v@.subrange(cs as int, stem_end as int) =~= v@.take(
            stem_end as int,
        ));
        assert(out@ =~= json_path_of(sql_path@));
    }
    string_from_chars(&out)
}

} // verus!
