//! Paths inside the image: byte strings whose components are separated by
//! `/` or `\`.

use vstd::prelude::*;
use vstd::string::StringSliceAdditionalSpecFns;

verus! {

pub open spec fn is_separator(b: u8) -> bool {
    b == 0x2f || b == 0x5c
}

/// Index of the first separator in `s`, or its length if there is none.
pub open spec fn separator_index(s: Seq<u8>) -> int
    decreases s.len(),
{
    if s.len() == 0 {
        0
    } else if is_separator(s[0]) {
        0
    } else {
        1 + separator_index(s.drop_first())
    }
}

/// The components of `s` in order, empty ones included, as cut at each
/// separator; a separator at the very end opens no further component.
pub open spec fn split_components(s: Seq<u8>) -> Seq<Seq<u8>>
    decreases s.len(),
{
    if s.len() == 0 {
        seq![]
    } else {
        let p = separator_index(s);
        if 0 <= p < s.len() {
            seq![s.take(p)] + split_components(s.skip(p + 1))
        } else {
            seq![s]
        }
    }
}

/// The component `.`, which names the directory it stands in.
pub open spec fn is_current(c: Seq<u8>) -> bool {
    c == seq![0x2eu8]
}

/// The component `..`, which names the parent directory.
pub open spec fn is_parent(c: Seq<u8>) -> bool {
    c == seq![0x2eu8, 0x2eu8]
}

/// The components of `s` in order, without empty ones and without `.`.
pub open spec fn path_names(s: Seq<u8>) -> Seq<Seq<u8>>
    decreases s.len(),
{
    if s.len() == 0 {
        seq![]
    } else {
        let p = separator_index(s);
        if p == 0 {
            path_names(s.skip(1))
        } else if 0 < p < s.len() {
            if is_current(s.take(p)) {
                path_names(s.skip(p + 1))
            } else {
                seq![s.take(p)] + path_names(s.skip(p + 1))
            }
        } else if is_current(s) {
            seq![]
        } else {
            seq![s]
        }
    }
}

fn is_current_exec(c: &Vec<u8>) -> (r: bool)
    ensures
        r == is_current(c@),
{
    let r = c.len() == 1 && c[0] == 0x2e;
    proof {
        if c@.len() == 1 && c@[0] == 0x2e {
            assert(c@ =~= seq![0x2eu8]);
        }
    }
    r
}

proof fn lemma_separator_index_bounds(s: Seq<u8>)
    ensures
        0 <= separator_index(s) <= s.len(),
        separator_index(s) < s.len() ==> is_separator(s[separator_index(s)]),
        forall|k: int| 0 <= k < separator_index(s) ==> !is_separator(#[trigger] s[k]),
    decreases s.len(),
{
    if s.len() > 0 && !is_separator(s[0]) {
        lemma_separator_index_bounds(s.drop_first());
        assert forall|k: int| 0 <= k < separator_index(s) implies !is_separator(#[trigger] s[k]) by {
            if k > 0 {
                assert(s[k] == s.drop_first()[k - 1]);
            }
        }
    }
}

/// The first separator at or after `from` is at `q` (or there is none and
/// `q` is the length).
proof fn lemma_separator_index_at(s: Seq<u8>, from: int, q: int)
    requires
        0 <= from <= q <= s.len(),
        forall|k: int| from <= k < q ==> !is_separator(#[trigger] s[k]),
        q < s.len() ==> is_separator(s[q]),
    ensures
        separator_index(s.skip(from)) == q - from,
    decreases q - from,
{
    let t = s.skip(from);
    if from < q {
        assert(t[0] == s[from]);
        assert(t.drop_first() =~= s.skip(from + 1));
        lemma_separator_index_at(s, from + 1, q);
    } else if q < s.len() {
        assert(t[0] == s[q]);
    } else {
        assert(t.len() == 0);
    }
}

fn copy_range(s: &[u8], from: usize, to: usize) -> (r: Vec<u8>)
    requires
        from <= to <= s@.len(),
    ensures
        r@ == s@.subrange(from as int, to as int),
{
    let mut r: Vec<u8> = Vec::new();
    let mut i: usize = from;
    while i < to
        invariant
            from <= i <= to <= s@.len(),
            r@ == s@.subrange(from as int, i as int),
        decreases to - i,
    {
        r.push(s[i]);
        i = i + 1;
        assert(r@ =~= s@.subrange(from as int, i as int));
    }
    r
}

/// Index of the first separator in `s` at or after `from`, or the length.
fn find_separator(s: &[u8], from: usize) -> (q: usize)
    requires
        from <= s@.len(),
    ensures
        from <= q <= s@.len(),
        forall|k: int| from <= k < q ==> !is_separator(#[trigger] s@[k]),
        q < s@.len() ==> is_separator(s@[q as int]),
{
    let mut q = from;
    while q < s.len()
        invariant
            from <= q <= s@.len(),
            forall|k: int| from <= k < q ==> !is_separator(#[trigger] s@[k]),
        decreases s@.len() - q,
    {
        if s[q] == 0x2f || s[q] == 0x5c {
            return q;
        }
        q = q + 1;
    }
    q
}

/// The non-empty components of `s`, in order.
pub fn names_of(s: &[u8]) -> (r: Vec<Vec<u8>>)
    ensures
        r@.len() == path_names(s@).len(),
        forall|i: int| 0 <= i < r@.len() ==> #[trigger] r@[i]@ == path_names(s@)[i],
{
    let mut r: Vec<Vec<u8>> = Vec::new();
    let ghost mut acc: Seq<Seq<u8>> = seq![];
    let mut pos: usize = 0;
    assert(s@.skip(0) =~= s@);
    assert(acc + path_names(s@) =~= path_names(s@));
    while pos < s.len()
        invariant
            pos <= s@.len(),
            r@.len() == acc.len(),
            forall|i: int| 0 <= i < r@.len() ==> #[trigger] r@[i]@ == acc[i],
            path_names(s@) == acc + path_names(s@.skip(pos as int)),
        decreases s@.len() - pos,
    {
        let q = find_separator(s, pos);
        proof {
            lemma_separator_index_at(s@, pos as int, q as int);
        }
        let ghost t = s@.skip(pos as int);
        if q == s.len() {
            let part = copy_range(s, pos, q);
            assert(part@ =~= t);
            assert(s@.skip(q as int).len() == 0);
            if is_current_exec(&part) {
                assert(path_names(t) == Seq::<Seq<u8>>::empty());
                assert(path_names(s@) =~= acc + path_names(s@.skip(q as int)));
            } else {
                proof {
                    assert(path_names(t) == seq![t]);
                    acc = acc + seq![part@];
                    assert(path_names(s@) =~= acc + path_names(s@.skip(q as int)));
                }
                r.push(part);
            }
            pos = q;
        } else {
            assert(t.skip(q - pos + 1) =~= s@.skip(q + 1));
            if q > pos {
                let part = copy_range(s, pos, q);
                assert(part@ =~= t.take(q - pos));
                if is_current_exec(&part) {
                    assert(path_names(t) == path_names(s@.skip(q + 1)));
                } else {
                    proof {
                        assert(path_names(t) == seq![t.take(q - pos)] + path_names(s@.skip(q + 1)));
                        acc = acc + seq![part@];
                        assert(path_names(s@) =~= acc + path_names(s@.skip(q + 1)));
                    }
                    r.push(part);
                }
            } else {
                assert(path_names(t) == path_names(s@.skip(q + 1)));
            }
            pos = q + 1;
        }
    }
    assert(s@.skip(pos as int).len() == 0);
    assert(acc + path_names(s@.skip(pos as int)) =~= acc);
    r
}

/// A path inside the image.
#[derive(Debug)]
pub struct IsoPath {
    pub path: Vec<u8>,
}

/// The components of an [`IsoPath`], handed out one at a time.
#[derive(Debug)]
pub struct Components {
    pub path: Vec<u8>,
    pub pos: usize,
}

impl IsoPath {
    pub fn new(s: &str) -> (r: IsoPath)
        ensures
            r.path@ == s.spec_bytes(),
    {
        let b = s.as_bytes();
        IsoPath { path: copy_range(b, 0, b.len()) }
    }

    /// The components of this path, empty ones included.
    pub fn components(&self) -> (r: Components)
        ensures
            r.path@ == self.path@,
            r.pos == 0,
    {
        IsoPath::clone_bytes(&self.path)
    }

    fn clone_bytes(v: &Vec<u8>) -> (r: Components)
        ensures
            r.path@ == v@,
            r.pos == 0,
    {
        Components { path: copy_range(v.as_slice(), 0, v.len()), pos: 0 }
    }
}

impl Components {
    /// The components not handed out yet.
    pub open spec fn remaining(&self) -> Seq<Seq<u8>> {
        split_components(self.path@.skip(self.pos as int))
    }

    pub open spec fn wf(&self) -> bool {
        self.pos <= self.path@.len()
    }

    /// The next component, or `None` once all have been handed out.
    pub fn next(&mut self) -> (r: Option<Vec<u8>>)
        requires
            old(self).wf(),
        ensures
            final(self).wf(),
            old(self).remaining().len() == 0 ==> r is None && final(self).remaining().len() == 0,
            old(self).remaining().len() > 0 ==> (r matches Some(c) && c@ == old(self).remaining()[0]
                && final(self).remaining() == old(self).remaining().drop_first()),
    {
        let ghost t = self.path@.skip(self.pos as int);
        if self.pos >= self.path.len() {
            assert(t.len() == 0);
            return None;
        }
        let q = find_separator(self.path.as_slice(), self.pos);
        proof {
            lemma_separator_index_at(self.path@, self.pos as int, q as int);
        }
        let part = copy_range(self.path.as_slice(), self.pos, q);
        assert(part@ =~= t.take(q - self.pos));
        if q == self.path.len() {
            assert(part@ =~= t);
            self.pos = q;
            assert(self.path@.skip(self.pos as int).len() == 0);
        } else {
            assert(t.skip(q - self.pos + 1) =~= self.path@.skip(q + 1));
            self.pos = q + 1;
        }
        assert(old(self).remaining().drop_first() =~= self.remaining());
        Some(part)
    }
}

} // verus!
