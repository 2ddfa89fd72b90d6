//! Paths into nested documents, in the form `/result/0/id`: each segment
//! after the first `/` is an array index when it reads as an unsigned
//! decimal number, and an object key otherwise.

use vstd::prelude::*;
use crate::text::chars_of;

verus! {

/// One step of a path.
#[derive(Clone, Debug)]
pub enum PathStep {
    Index(usize),
    Key(String),
}

pub enum PathStepView {
    Index(usize),
    Key(Seq<char>),
}

impl View for PathStep {
    type V = PathStepView;

    open spec fn view(&self) -> PathStepView {
        match self {
            PathStep::Index(i) => PathStepView::Index(*i),
            PathStep::Key(k) => PathStepView::Key(k@),
        }
    }
}

/// The pieces of `s` between slashes (one more than there are slashes).
pub open spec fn split_slash(s: Seq<char>) -> Seq<Seq<char>>
    decreases s.len(),
{
    if s.len() == 0 {
        seq![Seq::empty()]
    } else {
        let p = split_slash(s.drop_last());
        if s.last() == '/' {
            p.push(Seq::empty())
        } else {
            p.update(p.len() - 1, p.last().push(s.last()))
        }
    }
}

/// The pieces of `s` between slashes, without the last one when it is
/// empty.
pub open spec fn segments(s: Seq<char>) -> Seq<Seq<char>> {
    let p = split_slash(s);
    if p.last().len() == 0 {
        p.drop_last()
    } else {
        p
    }
}

pub open spec fn is_digit(c: char) -> bool {
    '0' <= c <= '9'
}

/// The number that the decimal digits `ds` write.
pub open spec fn digits_value(ds: Seq<char>) -> nat
    decreases ds.len(),
{
    if ds.len() == 0 {
        0
    } else {
        10 * digits_value(ds.drop_last()) + (ds.last() as nat - '0' as nat) as nat
    }
}

/// The digits of `s`: without a leading `+`, if any.
pub open spec fn unsigned_digits(s: Seq<char>) -> Seq<char> {
    if s.len() > 0 && s[0] == '+' {
        s.drop_first()
    } else {
        s
    }
}

/// `s` reads as an index: an optional `+`, then one or more decimal digits,
/// whose number fits in `usize`.
pub open spec fn reads_as_index(s: Seq<char>) -> bool {
    let ds = unsigned_digits(s);
    &&& ds.len() > 0
    &&& forall|i: int| 0 <= i < ds.len() ==> is_digit(#[trigger] ds[i])
    &&& digits_value(ds) <= usize::MAX
}

/// The step that a segment stands for.
pub open spec fn step_of(seg: Seq<char>) -> PathStepView {
    if reads_as_index(seg) {
        PathStepView::Index(digits_value(unsigned_digits(seg)) as usize)
    } else {
        PathStepView::Key(seg)
    }
}

/// The steps of a path: one for each segment after the first.
pub open spec fn steps_of(path: Seq<char>) -> Seq<PathStepView> {
    let segs = segments(path);
    if segs.len() == 0 {
        Seq::empty()
    } else {
        segs.drop_first().map_values(|s: Seq<char>| step_of(s))
    }
}

pub open spec fn char_views(vs: Seq<Vec<char>>) -> Seq<Seq<char>> {
    vs.map_values(|v: Vec<char>| v@)
}

proof fn lemma_digits_grow(ds: Seq<char>, k: int)
    requires
        0 <= k <= ds.len(),
    ensures
        digits_value(ds.take(k)) <= digits_value(ds),
    decreases ds.len() - k,
{
    if k < ds.len() {
        lemma_digits_grow(ds, k + 1);
        assert(ds.take(k + 1).drop_last() == ds.take(k));
    } else {
        assert(ds.take(k) == ds);
    }
}

/// The number that `ds` writes, if it is all decimal digits and fits.
fn read_digits(ds: &Vec<char>, from: usize) -> (r: Option<usize>)
    requires
        from <= ds@.len(),
    ensures
        match r {
            Some(n) => (forall|i: int| 0 <= i < ds@.skip(from as int).len() ==> is_digit(
                #[trigger] ds@.skip(from as int)[i],
            )) && n == digits_value(ds@.skip(from as int)),
            None => !(forall|i: int| 0 <= i < ds@.skip(from as int).len() ==> is_digit(
                #[trigger] ds@.skip(from as int)[i],
            )) || digits_value(ds@.skip(from as int)) > usize::MAX,
        },
{
    let ghost s = ds@.skip(from as int);
    let mut n: usize = 0;
    let mut i: usize = from;
    while i < ds.len()
        invariant
            from <= i <= ds@.len(),
            s == ds@.skip(from as int),
            forall|k: int| 0 <= k < i - from ==> is_digit(#[trigger] s[k]),
            n == digits_value(s.take(i - from)),
        decreases ds@.len() - i,
    {
        let c = ds[i];
        assert(s[i - from] == c);
        if !('0' <= c && c <= '9') {
            return None;
        }
        let d = (c as u32 - '0' as u32) as usize;
        assert(s.take(i - from + 1).drop_last() == s.take(i - from));
        assert(s.take(i - from + 1).last() == c);
        match n.checked_mul(10) {
            Some(m) => match m.checked_add(d) {
                Some(v) => {
                    n = v;
                },
                None => {
                    proof {
                        lemma_digits_grow(s, i - from + 1);
                    }
                    return None;
                },
            },
            None => {
                proof {
                    lemma_digits_grow(s, i - from + 1);
                }
                return None;
            },
        }
        i = i + 1;
    }
    assert(s.take(s.len() as int) == s);
    Some(n)
}

/// The step that the segment `seg` stands for.
fn classify(seg: &Vec<char>) -> (r: PathStep)
    ensures
        r@ == step_of(seg@),
{
    let from: usize = if seg.len() > 0 && seg[0] == '+' {
        1
    } else {
        0
    };
    assert(seg@.skip(from as int) == unsigned_digits(seg@));
    if from < seg.len() {
        match read_digits(seg, from) {
            Some(n) => return PathStep::Index(n),
            None => {},
        }
    }
    assert(seg@.skip(0) == seg@);
    PathStep::Key(crate::text::string_from(seg.as_slice(), 0))
}

/// The steps of `path`: it is cut at each `/`, a last empty piece is
/// dropped, the first piece is skipped, and each other piece is an index if
/// it reads as one and a key otherwise.
pub fn xpath_steps(path: &str) -> (r: Vec<PathStep>)
    ensures
        r@.map_values(|s: PathStep| s@) == steps_of(path@),
{
    let cs = chars_of(path);
    let ghost p = path@;
    let mut done: Vec<Vec<char>> = Vec::new();
    let mut cur: Vec<char> = Vec::new();
    let mut i: usize = 0;
    assert(p.take(0) == Seq::<char>::empty());
    assert(char_views(done@).push(cur@) =~= split_slash(p.take(0)));
    while i < cs.len()
        invariant
            cs@ == p,
            i <= p.len(),
            char_views(done@).push(cur@) == split_slash(p.take(i as int)),
        decreases p.len() - i,
    {
        let ghost before = char_views(done@);
        assert(p.take(i + 1).drop_last() == p.take(i as int));
        assert(p.take(i + 1).last() == cs@[i as int]);
        if cs[i] == '/' {
            let piece = cur;
            done.push(piece);
            cur = Vec::new();
            assert(char_views(done@) =~= before.push(piece@));
            assert(char_views(done@).push(cur@) =~= split_slash(p.take(i + 1)));
        } else {
            let ghost old_cur = cur@;
            cur.push(cs[i]);
            assert(char_views(done@).push(cur@) =~= before.push(old_cur).update(
                before.len() as int,
                old_cur.push(cs@[i as int]),
            ));
        }
        i = i + 1;
    }
    assert(p.take(p.len() as int) == p);
    let ghost pieces = split_slash(p);
    if cur.len() > 0 {
        done.push(cur);
    }
    let ghost segs = char_views(done@);
    assert(segs == segments(p));
    let mut r: Vec<PathStep> = Vec::new();
    if done.len() == 0 {
        return r;
    }
    let mut k: usize = 1;
    while k < done.len()
        invariant
            1 <= k <= segs.len(),
            segs == char_views(done@),
            r@.map_values(|s: PathStep| s@) == segs.subrange(1, k as int).map_values(
                |s: Seq<char>| step_of(s),
            ),
        decreases segs.len() - k,
    {
        let ghost before = r@.map_values(|s: PathStep| s@);
        assert(segs[k as int] == done@[k as int]@);
        r.push(classify(&done[k]));
        assert(r@.map_values(|s: PathStep| s@) =~= before.push(step_of(segs[k as int])));
        assert(segs.subrange(1, k + 1).map_values(|s: Seq<char>| step_of(s)) =~= segs.subrange(
            1,
            k as int,
        ).map_values(|s: Seq<char>| step_of(s)).push(step_of(segs[k as int])));
        k = k + 1;
    }
    assert(segs.subrange(1, segs.len() as int) == segs.drop_first());
    r
}

} // verus!
