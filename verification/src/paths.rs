//! Byte-level path arithmetic: translation between the `/`-separated virtual
//! path space and the archive's `\`-separated native key space, and the
//! decomposition of a path into its components.

use vstd::prelude::*;

verus! {

/// The separator of virtual paths: `/`.
pub const VIRT_SEP: u8 = 47;

/// The archive's native separator: `\`.
pub const NATIVE_SEP: u8 = 92;

/// One byte of a virtual path, rewritten for the native key space.
pub open spec fn native_byte(b: u8) -> u8 {
    if b == VIRT_SEP {
        NATIVE_SEP
    } else {
        b
    }
}

/// One byte of a native key, rewritten for the virtual path space.
pub open spec fn virtual_byte(b: u8) -> u8 {
    if b == NATIVE_SEP {
        VIRT_SEP
    } else {
        b
    }
}

/// A whole byte string rewritten into native-key form.
pub open spec fn to_native(s: Seq<u8>) -> Seq<u8> {
    Seq::new(s.len(), |i: int| native_byte(s[i]))
}

/// A whole native key rewritten into virtual-path form.
pub open spec fn to_virtual(s: Seq<u8>) -> Seq<u8> {
    Seq::new(s.len(), |i: int| virtual_byte(s[i]))
}

/// A virtual path rewritten into a native key: every separator converted,
/// then a single leading separator removed.
pub open spec fn normalize_spec(p: Seq<u8>) -> Seq<u8> {
    let r = to_native(p);
    if r.len() > 0 && r[0] == NATIVE_SEP {
        r.skip(1)
    } else {
        r
    }
}

/// The dot component: the lone byte `.`, which a path walk passes over.
pub const DOT: u8 = 46;

/// The raw `/`-separated pieces of a byte path, empty pieces dropped, so
/// that leading, trailing and doubled separators give rise to none.
pub open spec fn raw_components_of(s: Seq<u8>) -> Seq<Seq<u8>>
    decreases s.len(),
{
    if s.len() == 0 {
        Seq::empty()
    } else if s[0] == VIRT_SEP {
        raw_components_of(s.skip(1))
    } else if s.len() == 1 {
        seq![s]
    } else if s[1] == VIRT_SEP {
        seq![s.take(1)] + raw_components_of(s.skip(1))
    } else {
        let rest = raw_components_of(s.skip(1));
        seq![seq![s[0]] + rest[0]] + rest.skip(1)
    }
}

/// A piece list with every lone-dot piece removed, as a path walk removes
/// `.` steps.
pub open spec fn drop_dots(l: Seq<Seq<u8>>) -> Seq<Seq<u8>>
    decreases l.len(),
{
    if l.len() == 0 {
        Seq::empty()
    } else {
        let rest = drop_dots(l.drop_last());
        if l.last() == seq![DOT] {
            rest
        } else {
            rest.push(l.last())
        }
    }
}

/// The components of a byte path: its `/`-separated pieces with empty
/// pieces and `.` steps dropped.
pub open spec fn components_of(s: Seq<u8>) -> Seq<Seq<u8>> {
    drop_dots(raw_components_of(s))
}

/// Dropping dots distributes over concatenation.
pub proof fn lemma_drop_dots_add(a: Seq<Seq<u8>>, b: Seq<Seq<u8>>)
    ensures
        drop_dots(a + b) == drop_dots(a) + drop_dots(b),
    decreases b.len(),
{
    if b.len() == 0 {
        assert(a + b =~= a);
        assert(drop_dots(a) + drop_dots(b) =~= drop_dots(a));
    } else {
        lemma_drop_dots_add(a, b.drop_last());
        assert((a + b).drop_last() =~= a + b.drop_last());
        assert((a + b).last() == b.last());
        if b.last() != seq![DOT] {
            assert(drop_dots(a) + drop_dots(b.drop_last()).push(b.last()) =~= (drop_dots(a)
                + drop_dots(b.drop_last())).push(b.last()));
        }
    }
}

/// Dropping dots from one piece: a lone dot vanishes, anything else stays.
pub proof fn lemma_drop_dots_one(c: Seq<u8>)
    ensures
        c == seq![DOT] ==> drop_dots(seq![c]) == Seq::<Seq<u8>>::empty(),
        c != seq![DOT] ==> drop_dots(seq![c]) == seq![c],
{
    assert(seq![c].drop_last() =~= Seq::<Seq<u8>>::empty());
    assert(drop_dots(Seq::<Seq<u8>>::empty()) =~= Seq::<Seq<u8>>::empty());
    if c != seq![DOT] {
        assert(drop_dots(seq![c]) =~= seq![c]);
    }
}

/// A path that starts with a non-separator byte has a nonempty raw piece
/// list.
pub proof fn lemma_components_nonempty(s: Seq<u8>)
    requires
        s.len() > 0,
        s[0] != VIRT_SEP,
    ensures
        raw_components_of(s).len() > 0,
    decreases s.len(),
{
    if s.len() > 1 && s[1] != VIRT_SEP {
        lemma_components_nonempty(s.skip(1));
    }
}

/// Splitting off the first piece: if `s` starts with `j` non-separator
/// bytes followed by a separator or the end, those bytes are its first raw
/// piece and the rest of `s` carries the remaining ones.
pub proof fn lemma_component_split(s: Seq<u8>, j: int)
    requires
        1 <= j <= s.len(),
        forall|k: int| 0 <= k < j ==> s[k] != VIRT_SEP,
        j < s.len() ==> s[j] == VIRT_SEP,
    ensures
        raw_components_of(s) == seq![s.take(j)] + raw_components_of(s.skip(j)),
    decreases j,
{
    if j == 1 {
        if s.len() == 1 {
            assert(s.take(1) =~= s);
            assert(raw_components_of(s) =~= seq![s.take(1)] + raw_components_of(s.skip(1)));
        } else {
            assert(s[1] == VIRT_SEP);
        }
    } else {
        let t = s.skip(1);
        assert(s.len() >= 2 && s[1] != VIRT_SEP);
        assert(forall|k: int| 0 <= k < j - 1 ==> t[k] == s[k + 1] && t[k] != VIRT_SEP);
        lemma_component_split(t, j - 1);
        lemma_components_nonempty(t);
        let rest = raw_components_of(t);
        assert(rest[0] == t.take(j - 1));
        assert(rest.skip(1) =~= raw_components_of(t.skip(j - 1)));
        assert(seq![s[0]] + t.take(j - 1) =~= s.take(j));
        assert(t.skip(j - 1) =~= s.skip(j));
        assert(raw_components_of(s) =~= seq![s.take(j)] + raw_components_of(s.skip(j)));
    }
}

/// Joining a child name onto a parent path, as a path join does: an absolute
/// name replaces the parent, and a separator is inserted only where the
/// parent does not already end in one.
pub open spec fn join_spec(parent: Seq<u8>, name: Seq<u8>) -> Seq<u8> {
    if name.len() > 0 && name[0] == VIRT_SEP {
        name
    } else if parent.len() > 0 && parent.last() == VIRT_SEP {
        parent + name
    } else {
        parent + seq![VIRT_SEP] + name
    }
}

/// Rewrites a virtual path into its native key.
pub fn normalize(path: &[u8]) -> (r: Vec<u8>)
    ensures
        r@ == normalize_spec(path@),
{
    let start: usize = if path.len() > 0 && (path[0] == VIRT_SEP || path[0] == NATIVE_SEP) {
        1
    } else {
        0
    };
    let mut out: Vec<u8> = Vec::new();
    let mut i: usize = start;
    while i < path.len()
        invariant
            start <= i <= path@.len(),
            out@ =~= to_native(path@).subrange(start as int, i as int),
        decreases path@.len() - i,
    {
        let b = path[i];
        out.push(if b == VIRT_SEP { NATIVE_SEP } else { b });
        assert(out@.last() == native_byte(path@[i as int]));
        i += 1;
        assert(out@ =~= to_native(path@).subrange(start as int, i as int));
    }
    proof {
        if start == 1 {
            assert(out@ =~= normalize_spec(path@));
        } else {
            assert(to_native(path@).subrange(0, path@.len() as int) =~= to_native(path@));
            assert(out@ =~= normalize_spec(path@));
        }
    }
    out
}

/// Whether two byte strings hold the same bytes.
pub fn bytes_eq(a: &[u8], b: &[u8]) -> (r: bool)
    ensures
        r == (a@ == b@),
{
    if a.len() != b.len() {
        return false;
    }
    let mut i: usize = 0;
    while i < a.len()
        invariant
            i <= a@.len(),
            a@.len() == b@.len(),
            forall|j: int| 0 <= j < i ==> a@[j] == b@[j],
        decreases a@.len() - i,
    {
        if a[i] != b[i] {
            return false;
        }
        i += 1;
    }
    proof {
        assert(a@ =~= b@);
    }
    true
}

/// The views of a list of byte vectors.
pub open spec fn views_of(l: Seq<Vec<u8>>) -> Seq<Seq<u8>> {
    Seq::new(l.len(), |i: int| l[i]@)
}

/// Splits a byte path into its `/`-separated components, dropping empties.
pub fn split_components(s: &[u8]) -> (r: Vec<Vec<u8>>)
    ensures
        views_of(r@) == components_of(s@),
{
    let mut r: Vec<Vec<u8>> = Vec::new();
    let mut i: usize = 0;
    proof {
        assert(s@.skip(0) =~= s@);
        assert(views_of(r@) + components_of(s@) =~= components_of(s@));
    }
    while i < s.len()
        invariant
            i <= s@.len(),
            components_of(s@) =~= views_of(r@) + components_of(s@.skip(i as int)),
        decreases s@.len() - i,
    {
        if s[i] == VIRT_SEP {
            proof {
                assert(s@.skip(i as int).skip(1) =~= s@.skip(i as int + 1));
            }
            i += 1;
        } else {
            let ghost pre = r@;
            let start: usize = i;
            let mut cur: Vec<u8> = Vec::new();
            while i < s.len() && s[i] != VIRT_SEP
                invariant
                    start <= i <= s@.len(),
                    start < s@.len(),
                    cur@ =~= s@.subrange(start as int, i as int),
                    forall|k: int| start <= k < i ==> s@[k] != VIRT_SEP,
                    i < s@.len() ==> s@[start as int] != VIRT_SEP,
                decreases s@.len() - i,
            {
                cur.push(s[i]);
                i += 1;
                assert(cur@ =~= s@.subrange(start as int, i as int));
            }
            proof {
                let t = s@.skip(start as int);
                let j = i - start;
                assert(forall|k: int| 0 <= k < j ==> t[k] == s@[start + k] && t[k] != VIRT_SEP);
                assert(j < t.len() ==> t[j] == s@[i as int]);
                lemma_component_split(t, j as int);
                assert(t.take(j as int) =~= s@.subrange(start as int, i as int));
                assert(t.skip(j as int) =~= s@.skip(i as int));
                lemma_drop_dots_add(seq![cur@], raw_components_of(s@.skip(i as int)));
                lemma_drop_dots_one(cur@);
            }
            if cur.len() == 1 && cur[0] == DOT {
                proof {
                    assert(cur@ =~= seq![DOT]);
                    assert(Seq::<Seq<u8>>::empty() + components_of(s@.skip(i as int))
                        =~= components_of(s@.skip(i as int)));
                    assert(components_of(s@) =~= views_of(r@) + components_of(
                        s@.skip(i as int),
                    ));
                }
            } else {
                proof {
                    if cur@ == seq![DOT] {
                        assert(cur@.len() == 1 && cur@[0] == DOT);
                    }
                }
                r.push(cur);
                proof {
                    assert(views_of(r@) =~= views_of(pre).push(cur@));
                    assert(views_of(pre) + (seq![cur@] + components_of(s@.skip(i as int)))
                        =~= views_of(r@) + components_of(s@.skip(i as int)));
                    assert(components_of(s@) =~= views_of(r@) + components_of(
                        s@.skip(i as int),
                    ));
                }
            }
        }
    }
    proof {
        assert(components_of(s@.skip(s@.len() as int)) =~= Seq::<Seq<u8>>::empty());
        assert(components_of(s@) =~= views_of(r@));
    }
    r
}

/// Joins a child name onto a parent path.
pub fn join_path(parent: &[u8], name: &[u8]) -> (r: Vec<u8>)
    ensures
        r@ == join_spec(parent@, name@),
{
    if name.len() > 0 && name[0] == VIRT_SEP {
        let mut out: Vec<u8> = Vec::new();
        out.extend_from_slice(name);
        assert(out@ =~= join_spec(parent@, name@));
        return out;
    }
    let mut out: Vec<u8> = Vec::new();
    out.extend_from_slice(parent);
    if parent.len() == 0 || parent[parent.len() - 1] != VIRT_SEP {
        out.push(VIRT_SEP);
        assert(out@ =~= parent@ + seq![VIRT_SEP]);
    }
    out.extend_from_slice(name);
    assert(out@ =~= join_spec(parent@, name@));
    out
}

} // verus!
