//! Rendered columns and blank-line squeezing over output bytes.

use vstd::prelude::*;

verus! {

/// Whether a byte continues a UTF-8 encoded character.
pub open spec fn is_continuation(x: u8) -> bool {
    0x80 <= x <= 0xBF
}

/// The column after writing byte `x` at column `c`: a newline returns to 0,
/// a continuation byte stays in the same character, any other byte starts a
/// new character. Saturates at `usize::MAX`.
pub open spec fn col_step(c: nat, x: u8) -> nat {
    if x == 10 {
        0
    } else if is_continuation(x) {
        c
    } else if c >= usize::MAX {
        usize::MAX as nat
    } else {
        c + 1
    }
}

/// The column after writing `b` starting at column `c0`.
pub open spec fn column_after(c0: nat, b: Seq<u8>) -> nat
    decreases b.len(),
{
    if b.len() == 0 {
        c0
    } else {
        col_step(column_after(c0, b.drop_last()), b.last())
    }
}

pub proof fn lemma_column_after_concat(c0: nat, a: Seq<u8>, b: Seq<u8>)
    ensures
        column_after(c0, a + b) == column_after(column_after(c0, a), b),
    decreases b.len(),
{
    if b.len() == 0 {
        assert(a + b =~= a);
    } else {
        lemma_column_after_concat(c0, a, b.drop_last());
        assert((a + b).drop_last() =~= a + b.drop_last());
    }
}

pub proof fn lemma_column_bounded(c0: nat, b: Seq<u8>)
    requires
        c0 <= usize::MAX,
    ensures
        column_after(c0, b) <= usize::MAX,
    decreases b.len(),
{
    if b.len() > 0 {
        lemma_column_bounded(c0, b.drop_last());
    }
}

/// Column after `b[from..to]` started at `c`, computed byte by byte.
pub fn advance_column(c: usize, b: &[u8], from: usize, to: usize) -> (r: usize)
    requires
        from <= to <= b@.len(),
    ensures
        r == column_after(c as nat, b@.subrange(from as int, to as int)),
{
    let mut col = c;
    let mut i = from;
    while i < to
        invariant
            from <= i <= to <= b@.len(),
            col == column_after(c as nat, b@.subrange(from as int, i as int)),
        decreases to - i,
    {
        let x = b[i];
        proof {
            let s = b@.subrange(from as int, i as int + 1);
            assert(s.drop_last() =~= b@.subrange(from as int, i as int));
            assert(s.last() == x);
        }
        if x == 10 {
            col = 0;
        } else if 0x80 <= x && x <= 0xBF {
        } else {
            col = col.saturating_add(1);
        }
        i = i + 1;
    }
    col
}

/// After a run of `run` newlines, what byte `x` does to the run, and whether
/// it is kept: a third and later consecutive newline is dropped.
pub open spec fn squeeze_run_step(run: u8, x: u8) -> u8 {
    if x == 10 {
        if run < 255 { (run + 1) as u8 } else { 255 }
    } else {
        0
    }
}

pub open spec fn squeeze_keeps(run: u8, x: u8) -> bool {
    x != 10 || squeeze_run_step(run, x) <= 2
}

/// The newline run after `s`, starting from `run`.
pub open spec fn squeeze_run(run: u8, s: Seq<u8>) -> u8
    decreases s.len(),
{
    if s.len() == 0 {
        run
    } else {
        squeeze_run_step(squeeze_run(run, s.drop_last()), s.last())
    }
}

/// `s` with every newline beyond the second of a run dropped, the run
/// starting at `run` newlines already seen.
pub open spec fn squeeze(run: u8, s: Seq<u8>) -> Seq<u8>
    decreases s.len(),
{
    if s.len() == 0 {
        Seq::empty()
    } else if squeeze_keeps(squeeze_run(run, s.drop_last()), s.last()) {
        squeeze(run, s.drop_last()).push(s.last())
    } else {
        squeeze(run, s.drop_last())
    }
}

/// What a yielded piece becomes: squeezed when blank lines are cleaned.
pub open spec fn yield_filter(enabled: bool, run: u8, s: Seq<u8>) -> Seq<u8> {
    if enabled { squeeze(run, s) } else { s }
}

pub proof fn lemma_squeeze_concat(run: u8, a: Seq<u8>, b: Seq<u8>)
    ensures
        squeeze(run, a + b) == squeeze(run, a) + squeeze(squeeze_run(run, a), b),
        squeeze_run(run, a + b) == squeeze_run(squeeze_run(run, a), b),
    decreases b.len(),
{
    if b.len() == 0 {
        assert(a + b =~= a);
        assert(squeeze(run, a) + Seq::<u8>::empty() =~= squeeze(run, a));
    } else {
        lemma_squeeze_concat(run, a, b.drop_last());
        assert((a + b).drop_last() =~= a + b.drop_last());
        assert((a + b).last() == b.last());
        let p = squeeze(run, a);
        let q = squeeze(squeeze_run(run, a), b.drop_last());
        assert((p + q).push(b.last()) =~= p + q.push(b.last()));
    }
}

pub proof fn lemma_yield_filter_concat(enabled: bool, run: u8, a: Seq<u8>, b: Seq<u8>)
    ensures
        yield_filter(enabled, run, a + b) == yield_filter(enabled, run, a) + yield_filter(enabled, squeeze_run(run, a), b),
{
    lemma_squeeze_concat(run, a, b);
}

/// Squeezes `b[from..to]` starting from the run `run`; returns the kept
/// bytes and the run after them.
pub fn squeeze_range(run: u8, b: &[u8], from: usize, to: usize) -> (r: (Vec<u8>, u8))
    requires
        from <= to <= b@.len(),
    ensures
        r.0@ == squeeze(run, b@.subrange(from as int, to as int)),
        r.1 == squeeze_run(run, b@.subrange(from as int, to as int)),
{
    let mut out: Vec<u8> = Vec::new();
    let mut cur = run;
    let mut i = from;
    while i < to
        invariant
            from <= i <= to <= b@.len(),
            out@ == squeeze(run, b@.subrange(from as int, i as int)),
            cur == squeeze_run(run, b@.subrange(from as int, i as int)),
        decreases to - i,
    {
        let x = b[i];
        proof {
            let s = b@.subrange(from as int, i as int + 1);
            assert(s.drop_last() =~= b@.subrange(from as int, i as int));
            assert(s.last() == x);
        }
        if x == 10 {
            if cur < 255 {
                cur = cur + 1;
            }
            if cur <= 2 {
                out.push(x);
            }
        } else {
            cur = 0;
            out.push(x);
        }
        i = i + 1;
    }
    (out, cur)
}

} // verus!
