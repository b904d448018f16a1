//! Unix path handling on path text: joining, file names, extensions, stems,
//! and the filters that decide which files are indexed.

use vstd::prelude::*;

use crate::text::{
    contains_exec, contains_seq, copy_range, extend_chars, matches_at, rfind, rfind_below, rfind_exec,
    string_from_chars, string_from_range, string_from_two, to_chars, lemma_rfind_matches,
};

verus! {

broadcast use vstd::string::group_string_axioms;

/// `base.join(seg)`: an absolute `seg` replaces `base`; otherwise a separator
/// is put between them unless `base` is empty or already ends with one.
pub open spec fn join_path(base: Seq<char>, seg: Seq<char>) -> Seq<char> {
    if seg.len() > 0 && seg[0] == '/' {
        seg
    } else if base.len() > 0 && base.last() != '/' {
        base + seq!['/'] + seg
    } else {
        base + seg
    }
}

/// Joins two path texts as `Path::join` does.
pub fn join(base: &str, seg: &str) -> (r: String)
    ensures
        r@ == join_path(base@, seg@),
{
    let b = to_chars(base);
    let s = to_chars(seg);
    if s.len() > 0 && s[0] == '/' {
        string_from_chars(&s)
    } else if b.len() > 0 && b[b.len() - 1] != '/' {
        let mut v = b;
        v.push('/');
        let r = string_from_two(&v, &s);
        r
    } else {
        string_from_two(&b, &s)
    }
}

/// Start of the run of non-separator characters that ends at `e`.
pub open spec fn segment_start(s: Seq<char>, e: nat) -> nat
    decreases e,
{
    if e == 0 || e > s.len() || s[e - 1] == '/' {
        e
    } else {
        segment_start(s, (e - 1) as nat)
    }
}

/// Bounds of the final normal component of `s[..e]`, if there is one.
/// Separators and `.` components are skipped, except a `.` at the very start
/// of the path; a final `..` or `.` component, or none at all, gives `None`.
pub open spec fn file_name_below(s: Seq<char>, e: nat) -> Option<(nat, nat)>
    decreases e,
{
    if e == 0 || e > s.len() {
        None
    } else if s[e - 1] == '/' {
        file_name_below(s, (e - 1) as nat)
    } else {
        let b = segment_start(s, e);
        if s.subrange(b as int, e as int) == seq!['.'] {
            if b == 0 {
                None
            } else {
                proof {
                    lemma_segment_start(s, e);
                }
                file_name_below(s, b)
            }
        } else if s.subrange(b as int, e as int) == seq!['.', '.'] {
            None
        } else {
            Some((b, e))
        }
    }
}

/// The run of non-separators ending at `e` starts after a separator or at 0.
pub proof fn lemma_segment_start(s: Seq<char>, e: nat)
    requires
        0 < e <= s.len(),
        s[e - 1] != '/',
    ensures
        segment_start(s, e) < e,
        segment_start(s, e) == 0 || s[segment_start(s, e) - 1] == '/',
        forall|k: int| segment_start(s, e) <= k < e ==> s[k] != '/',
    decreases e,
{
    if e > 1 && s[e - 2] != '/' {
        lemma_segment_start(s, (e - 1) as nat);
    } else if e == 1 {
        assert(segment_start(s, 0) == 0);
    } else {
        assert(segment_start(s, (e - 1) as nat) == e - 1);
    }
}

/// Bounds of the file name (`Path::file_name`) of `s`.
pub open spec fn file_name_range(s: Seq<char>) -> Option<(nat, nat)> {
    file_name_below(s, s.len())
}

/// Position of the last `.` in `s`, if any.
pub open spec fn last_dot(s: Seq<char>) -> Option<nat> {
    rfind(s, seq!['.'])
}

/// `Path::extension`: the part of the file name after its last `.`, unless the
/// only `.` starts the name.
pub open spec fn extension_of(s: Seq<char>) -> Option<Seq<char>> {
    match file_name_range(s) {
        None => None,
        Some((b, e)) => {
            let name = s.subrange(b as int, e as int);
            match last_dot(name) {
                Some(d) => if d == 0 {
                    None
                } else {
                    Some(name.subrange(d + 1int, name.len() as int))
                },
                None => None,
            }
        },
    }
}

/// `Path::file_stem`: the file name up to its last `.`, or the whole name when
/// it has no `.` past its first character.
pub open spec fn file_stem_of(s: Seq<char>) -> Option<Seq<char>> {
    match file_name_range(s) {
        None => None,
        Some((b, e)) => {
            let name = s.subrange(b as int, e as int);
            match last_dot(name) {
                Some(d) => if d == 0 {
                    Some(name)
                } else {
                    Some(name.subrange(0, d as int))
                },
                None => Some(name),
            }
        },
    }
}

/// Bounds of the file name of the path held in `v`.
fn file_name_bounds(v: &Vec<char>) -> (r: Option<(usize, usize)>)
    ensures
        match r {
            Some((b, e)) => file_name_range(v@) == Some((b as nat, e as nat)) && b < e <= v@.len(),
            None => file_name_range(v@) is None,
        },
{
    let mut e = v.len();
    loop
        invariant
            e <= v@.len(),
            file_name_range(v@) == file_name_below(v@, e as nat),
        decreases e,
    {
        if e == 0 {
            return None;
        }
        if v[e - 1] == '/' {
            e = e - 1;
        } else {
            proof {
                lemma_segment_start(v@, e as nat);
            }
            let mut b = e - 1;
            assert(segment_start(v@, e as nat) == segment_start(v@, b as nat));
            while b > 0 && v[b - 1] != '/'
                invariant
                    b < e <= v@.len(),
                    v@[e - 1] != '/',
                    segment_start(v@, e as nat) == segment_start(v@, b as nat),
                decreases b,
            {
                assert(segment_start(v@, b as nat) == segment_start(v@, (b - 1) as nat));
                b = b - 1;
            }
            assert(segment_start(v@, b as nat) == b);
            assert(segment_start(v@, e as nat) == b);
            let is_dot = e - b == 1 && v[b] == '.';
            let is_dot_dot = e - b == 2 && v[b] == '.' && v[b + 1] == '.';
            assert(is_dot == (v@.subrange(b as int, e as int) == seq!['.'])) by {
                if e - b == 1 && v@[b as int] == '.' {
                    assert(v@.subrange(b as int, e as int) =~= seq!['.']);
                }
                if v@.subrange(b as int, e as int) == seq!['.'] {
                    assert(v@.subrange(b as int, e as int).len() == 1);
                    assert(v@.subrange(b as int, e as int)[0] == '.');
                }
            }
            assert(is_dot_dot == (v@.subrange(b as int, e as int) == seq!['.', '.'])) by {
                if e - b == 2 && v@[b as int] == '.' && v@[b + 1] == '.' {
                    assert(v@.subrange(b as int, e as int) =~= seq!['.', '.']);
                }
                if v@.subrange(b as int, e as int) == seq!['.', '.'] {
                    assert(v@.subrange(b as int, e as int).len() == 2);
                    assert(v@.subrange(b as int, e as int)[0] == '.');
                    assert(v@.subrange(b as int, e as int)[1] == '.');
                }
            }
            if is_dot {
                if b == 0 {
                    return None;
                }
                assert(file_name_below(v@, e as nat) == file_name_below(v@, b as nat));
                e = b;
            } else if is_dot_dot {
                return None;
            } else {
                return Some((b, e));
            }
        }
    }
}

/// Position of the last `.` in `v[lo..hi]`, relative to `lo`.
fn last_dot_in(v: &Vec<char>, lo: usize, hi: usize) -> (r: Option<usize>)
    requires
        lo <= hi <= v@.len(),
    ensures
        match r {
            Some(d) => last_dot(v@.subrange(lo as int, hi as int)) == Some(d as nat) && lo + d < hi,
            None => last_dot(v@.subrange(lo as int, hi as int)) is None,
        },
{
    let name = copy_range(v, lo, hi);
    let dot: Vec<char> = vec!['.'];
    assert(dot@ == seq!['.']);
    rfind_exec(&name, &dot)
}

/// `Path::extension` of a path text.
pub fn extension(path: &str) -> (r: Option<String>)
    ensures
        match r {
            Some(e) => extension_of(path@) == Some(e@),
            None => extension_of(path@) is None,
        },
{
    let v = to_chars(path);
    match file_name_bounds(&v) {
        None => None,
        Some((b, e)) => {
            assert(file_name_range(path@) == Some((b as nat, e as nat)));
            match last_dot_in(&v, b, e) {
                Some(d) => {
                    assert(last_dot(path@.subrange(b as int, e as int)) == Some(d as nat));
                    if d == 0 {
                        None
                    } else {
                        let r = string_from_range(&v, b + d + 1, e);
                        assert(v@.subrange(b as int, e as int).subrange(
                            d + 1,
                            e - b,
                        ) =~= v@.subrange(b + d + 1, e as int));
                        Some(r)
                    }
                },
                None => None,
            }
        },
    }
}

/// `Path::file_stem` of a path text.
pub fn file_stem(path: &str) -> (r: Option<String>)
    ensures
        match r {
            Some(e) => file_stem_of(path@) == Some(e@),
            None => file_stem_of(path@) is None,
        },
{
    let v = to_chars(path);
    match file_name_bounds(&v) {
        None => None,
        Some((b, e)) => {
            match last_dot_in(&v, b, e) {
                Some(d) => {
                    if d == 0 {
                        Some(string_from_range(&v, b, e))
                    } else {
                        let r = string_from_range(&v, b, b + d);
                        assert(v@.subrange(b as int, e as int).subrange(0, d as int)
                            =~= v@.subrange(b as int, b + d));
                        Some(r)
                    }
                },
                None => Some(string_from_range(&v, b, e)),
            }
        },
    }
}

/// The file name is its stem, a `.`, and its extension, whenever it has an
/// extension.
pub proof fn lemma_stem_dot_extension(s: Seq<char>)
    requires
        extension_of(s) is Some,
    ensures
        file_stem_of(s) is Some,
        file_name_range(s) matches Some((b, e)) && s.subrange(b as int, e as int)
            == file_stem_of(s)->0 + seq!['.'] + extension_of(s)->0,
{
    let (b, e) = file_name_range(s)->0;
    let name = s.subrange(b as int, e as int);
    let d = last_dot(name)->0;
    lemma_rfind_matches(name, seq!['.'], name.len() + 1);
    assert(name.subrange(d as int, d + 1int) == seq!['.']);
    assert(name[d as int] == '.') by {
        assert(name.subrange(d as int, d + 1int)[0] == name[d as int]);
    }
    assert(name =~= name.subrange(0, d as int) + seq!['.'] + name.subrange(d + 1int, name.len() as int));
}

/// Whether the path's extension, with its dot, is one of `extensions`.
pub open spec fn allowed_extension(path: Seq<char>, extensions: Seq<String>) -> bool {
    match extension_of(path) {
        Some(e) => exists|i: int|
            0 <= i < extensions.len() && #[trigger] extensions[i]@ == seq!['.'] + e,
        None => false,
    }
}

/// Check if a path has an allowed extension: its extension, with a leading
/// dot, equals one of `extensions`.
pub fn has_allowed_extension(path: &str, extensions: &[String]) -> (b: bool)
    ensures
        b == allowed_extension(path@, extensions@),
{
    let ext = match extension(path) {
        Some(e) => e,
        None => return false,
    };
    let mut dotted: Vec<char> = vec!['.'];
    let ev = to_chars(ext.as_str());
    extend_chars(&mut dotted, &ev);
    assert(dotted@ == seq!['.'] + ext@);
    let mut i: usize = 0;
    while i < extensions.len()
        invariant
            i <= extensions@.len(),
            dotted@ == seq!['.'] + ext@,
            extension_of(path@) == Some(ext@),
            forall|k: int| 0 <= k < i ==> extensions@[k]@ != dotted@,
        decreases extensions@.len() - i,
    {
        let allowed = to_chars(extensions[i].as_str());
        if vec_eq(&allowed, &dotted) {
            assert(extensions@[i as int]@ == seq!['.'] + ext@);
            return true;
        }
        i = i + 1;
    }
    false
}

/// Whether two character vectors are equal.
fn vec_eq(a: &Vec<char>, b: &Vec<char>) -> (r: bool)
    ensures
        r == (a@ == b@),
{
    if a.len() != b.len() {
        return false;
    }
    let mut i: usize = 0;
    while i < a.len()
        invariant
            a@.len() == b@.len(),
            i <= a@.len(),
            forall|k: int| 0 <= k < i ==> a@[k] == b@[k],
        decreases a@.len() - i,
    {
        if a[i] != b[i] {
            assert(a@[i as int] != b@[i as int]);
            return false;
        }
        i = i + 1;
    }
    assert(a@ =~= b@);
    true
}

/// Whether the path text contains one of the patterns.
pub open spec fn ignored(path: Seq<char>, patterns: Seq<String>) -> bool {
    exists|i: int| 0 <= i < patterns.len() && contains_seq(path, #[trigger] patterns[i]@)
}

/// Check if a path contains any of the ignore patterns.
pub fn should_ignore(path: &str, ignore_patterns: &[String]) -> (b: bool)
    ensures
        b == ignored(path@, ignore_patterns@),
{
    let p = to_chars(path);
    let mut i: usize = 0;
    while i < ignore_patterns.len()
        invariant
            i <= ignore_patterns@.len(),
            p@ == path@,
            forall|k: int| 0 <= k < i ==> !contains_seq(path@, #[trigger] ignore_patterns@[k]@),
        decreases ignore_patterns@.len() - i,
    {
        let pat = to_chars(ignore_patterns[i].as_str());
        if contains_exec(&p, &pat) {
            return true;
        }
        i = i + 1;
    }
    false
}

/// Expansion of a leading `~/` to the home directory.
pub open spec fn expand_home_of(p: Seq<char>, home: Option<Seq<char>>) -> Seq<char> {
    if p.len() >= 2 && p[0] == '~' && p[1] == '/' && home is Some {
        join_path(home->0, p.skip(2))
    } else {
        p
    }
}

/// Replaces a leading `~/` in `p` with the given home directory, if there is one.
pub fn expand_home(p: &str, home: Option<&str>) -> (r: String)
    ensures
        r@ == expand_home_of(p@, match home {
            Some(h) => Some(h@),
            None => None,
        }),
{
    let v = to_chars(p);
    if v.len() >= 2 && v[0] == '~' && v[1] == '/' {
        match home {
            Some(h) => {
                let rest = string_from_range(&v, 2, v.len());
                assert(v@.subrange(2, v@.len() as int) =~= v@.skip(2));
                join(h, rest.as_str())
            },
            None => string_from_chars(&v),
        }
    } else {
        string_from_chars(&v)
    }
}

/// The `/`-separated pieces of `s`, empty ones included.
pub open spec fn path_pieces(s: Seq<char>) -> Seq<Seq<char>>
    decreases s.len(),
{
    if s.len() == 0 {
        seq![Seq::empty()]
    } else if s.last() == '/' {
        path_pieces(s.drop_last()).push(Seq::empty())
    } else {
        let ps = path_pieces(s.drop_last());
        ps.update(ps.len() - 1, ps.last().push(s.last()))
    }
}

/// A piece that names a component: neither empty nor `.`.
pub open spec fn is_component(p: Seq<char>) -> bool {
    p.len() > 0 && p != seq!['.']
}

/// The pieces that name components, in order.
pub open spec fn kept_components(ps: Seq<Seq<char>>) -> Seq<Seq<char>>
    decreases ps.len(),
{
    if ps.len() == 0 {
        Seq::empty()
    } else {
        kept_components(ps.drop_last()) + if is_component(ps.last()) {
            seq![ps.last()]
        } else {
            Seq::empty()
        }
    }
}

/// What `Path::components` yields for a path text, which is what path
/// equality compares: whether it starts at the root, whether it starts with
/// the current directory `.`, then its normal and `..` components (repeated
/// separators and inner `.` components are skipped).
pub open spec fn path_key(s: Seq<char>) -> (bool, bool, Seq<Seq<char>>) {
    let root = s.len() > 0 && s[0] == '/';
    let cur = !root && s.len() > 0 && s[0] == '.' && (s.len() == 1 || s[1] == '/');
    (root, cur, kept_components(path_pieces(s)))
}

/// The components of a path, computed.
pub struct PathKey {
    pub root: bool,
    pub cur_dir: bool,
    pub parts: Vec<Vec<char>>,
}

/// The character sequences of a list of character vectors.
pub open spec fn parts_view(v: Seq<Vec<char>>) -> Seq<Seq<char>> {
    v.map_values(|p: Vec<char>| p@)
}

impl PathKey {
    pub open spec fn key(&self) -> (bool, bool, Seq<Seq<char>>) {
        (self.root, self.cur_dir, parts_view(self.parts@))
    }
}

fn is_component_exec(p: &Vec<char>) -> (b: bool)
    ensures
        b == is_component(p@),
{
    if p.len() == 0 {
        return false;
    }
    if p.len() == 1 && p[0] == '.' {
        assert(p@ =~= seq!['.']);
        return false;
    }
    assert(p@ != seq!['.']) by {
        if p@ == seq!['.'] {
            assert(p@.len() == 1 && p@[0] == '.');
        }
    }
    true
}

/// The components of the path text `path`.
pub fn path_components(path: &str) -> (k: PathKey)
    ensures
        k.key() == path_key(path@),
{
    let v = to_chars(path);
    let mut done: Vec<Vec<char>> = Vec::new();
    let mut cur: Vec<char> = Vec::new();
    let mut i: usize = 0;
    assert(v@.take(0) =~= Seq::<char>::empty());
    while i < v.len()
        invariant
            i <= v@.len(),
            v@ == path@,
            path_pieces(v@.take(i as int)).len() >= 1,
            parts_view(done@) == kept_components(path_pieces(v@.take(i as int)).drop_last()),
            cur@ == path_pieces(v@.take(i as int)).last(),
        decreases v@.len() - i,
    {
        let ghost ps = path_pieces(v@.take(i as int));
        let c = v[i];
        assert(v@.take(i + 1).drop_last() =~= v@.take(i as int));
        assert(v@.take(i + 1).last() == c);
        if c == '/' {
            let ghost before = parts_view(done@);
            assert(ps.drop_last().push(ps.last()) =~= ps);
            if is_component_exec(&cur) {
                let piece = cur;
                done.push(piece);
                assert(parts_view(done@) =~= before + seq![ps.last()]);
            } else {
                assert(parts_view(done@) =~= before + Seq::<Seq<char>>::empty());
            }
            cur = Vec::new();
            assert(path_pieces(v@.take(i + 1)).drop_last() =~= ps);
            assert(cur@ =~= Seq::<char>::empty());
        } else {
            cur.push(c);
            assert(path_pieces(v@.take(i + 1)).drop_last() =~= ps.drop_last());
        }
        i = i + 1;
    }
    assert(v@.take(i as int) =~= v@);
    let ghost ps = path_pieces(v@);
    let ghost before = parts_view(done@);
    assert(ps.drop_last().push(ps.last()) =~= ps);
    if is_component_exec(&cur) {
        let piece = cur;
        done.push(piece);
        assert(parts_view(done@) =~= before + seq![ps.last()]);
    } else {
        assert(parts_view(done@) =~= before + Seq::<Seq<char>>::empty());
    }
    let root = v.len() > 0 && v[0] == '/';
    let cur_dir = !root && v.len() > 0 && v[0] == '.' && (v.len() == 1 || v[1] == '/');
    PathKey { root, cur_dir, parts: done }
}

/// Whether two paths have the same components, as `Path` equality decides.
pub fn same_components(a: &PathKey, b: &PathKey) -> (r: bool)
    ensures
        r == (a.key() == b.key()),
{
    if a.root != b.root || a.cur_dir != b.cur_dir {
        return false;
    }
    if a.parts.len() != b.parts.len() {
        assert(parts_view(a.parts@).len() != parts_view(b.parts@).len());
        return false;
    }
    let mut i: usize = 0;
    while i < a.parts.len()
        invariant
            i <= a.parts@.len() == b.parts@.len(),
            forall|k: int| 0 <= k < i ==> a.parts@[k]@ == b.parts@[k]@,
        decreases a.parts@.len() - i,
    {
        if !vec_eq(&a.parts[i], &b.parts[i]) {
            assert(parts_view(a.parts@)[i as int] != parts_view(b.parts@)[i as int]);
            return false;
        }
        i = i + 1;
    }
    assert(parts_view(a.parts@) =~= parts_view(b.parts@));
    true
}

/// The home directory, `dirs::home_dir()`, with the path rendered as text
/// (bytes that are not UTF-8 replaced as `to_string_lossy` does). Nothing is
/// stated of the result: it depends on the environment.
#[verifier::external_body]
pub(crate) fn home_dir() -> Option<String> {
    dirs::home_dir().map(|p| p.to_string_lossy().into_owned())
}

} // verus!
