//! Splitting a byte sequence on a separator byte, the primitive under both
//! the tab-separated record format and the decimal score text.

use vstd::prelude::*;

verus! {

/// Line feed, the row separator of the input and output streams.
pub const LF: u8 = 10;

/// Carriage return, stripped from a line end when present.
pub const CR: u8 = 13;

/// The fields of `s`, split on the byte `sep`.
///
/// The empty sequence has one empty field, and every occurrence of `sep`
/// ends the current field and begins a new one, so the number of fields is
/// always one more than the number of separators.
pub open spec fn split_bytes(s: Seq<u8>, sep: u8) -> Seq<Seq<u8>>
    decreases s.len(),
{
    if s.len() == 0 {
        seq![s]
    } else if s[0] == sep {
        seq![Seq::<u8>::empty()] + split_bytes(s.skip(1), sep)
    } else {
        let rest = split_bytes(s.skip(1), sep);
        seq![seq![s[0]] + rest[0]] + rest.skip(1)
    }
}

/// Splitting always yields at least one field.
pub proof fn lemma_split_len_pos(s: Seq<u8>, sep: u8)
    ensures
        split_bytes(s, sep).len() >= 1,
    decreases s.len(),
{
    if s.len() == 0 {
    } else if s[0] == sep {
        lemma_split_len_pos(s.skip(1), sep);
    } else {
        lemma_split_len_pos(s.skip(1), sep);
    }
}

/// A sequence free of the separator is a single field.
pub proof fn lemma_split_clean(s: Seq<u8>, sep: u8)
    requires
        forall|j: int| 0 <= j < s.len() ==> s[j] != sep,
    ensures
        split_bytes(s, sep) == seq![s],
    decreases s.len(),
{
    if s.len() == 0 {
    } else {
        lemma_split_clean(s.skip(1), sep);
        let rest = split_bytes(s.skip(1), sep);
        assert(rest[0] == s.skip(1));
        assert(seq![s[0]] + rest[0] =~= s);
        assert(rest.skip(1) =~= Seq::<Seq<u8>>::empty());
        assert(split_bytes(s, sep) =~= seq![s]);
    }
}

/// A separator-free field at the front splits off whole.
pub proof fn lemma_split_first_field(f: Seq<u8>, rest: Seq<u8>, sep: u8)
    requires
        forall|j: int| 0 <= j < f.len() ==> f[j] != sep,
    ensures
        split_bytes(f + seq![sep] + rest, sep) == seq![f] + split_bytes(rest, sep),
    decreases f.len(),
{
    let s = f + seq![sep] + rest;
    if f.len() == 0 {
        assert(s[0] == sep);
        assert(s.skip(1) =~= rest);
        assert(seq![Seq::<u8>::empty()] =~~= seq![f]);
        assert(split_bytes(s, sep) =~~= seq![f] + split_bytes(rest, sep));
    } else {
        assert(s[0] == f[0]);
        assert(s.skip(1) =~= f.skip(1) + seq![sep] + rest);
        lemma_split_first_field(f.skip(1), rest, sep);
        let r = split_bytes(s.skip(1), sep);
        assert(r == seq![f.skip(1)] + split_bytes(rest, sep));
        assert(r[0] == f.skip(1));
        assert(seq![s[0]] + r[0] =~= f);
        assert(r.skip(1) =~= split_bytes(rest, sep));
        assert(split_bytes(s, sep) =~~= seq![f] + split_bytes(rest, sep));
    }
}

/// A separator-free field appended at the back becomes one extra field.
pub proof fn lemma_split_append_field(a: Seq<u8>, b: Seq<u8>, sep: u8)
    requires
        forall|j: int| 0 <= j < b.len() ==> b[j] != sep,
    ensures
        split_bytes(a + seq![sep] + b, sep) == split_bytes(a, sep) + seq![b],
    decreases a.len(),
{
    let s = a + seq![sep] + b;
    if a.len() == 0 {
        lemma_split_clean(b, sep);
        assert(s[0] == sep);
        assert(s.skip(1) =~= b);
        assert(split_bytes(s, sep) =~~= split_bytes(a, sep) + seq![b]);
    } else if a[0] == sep {
        assert(s[0] == sep);
        assert(s.skip(1) =~= a.skip(1) + seq![sep] + b);
        lemma_split_append_field(a.skip(1), b, sep);
        assert(split_bytes(s, sep) =~~= split_bytes(a, sep) + seq![b]);
    } else {
        assert(s[0] == a[0]);
        assert(s.skip(1) =~= a.skip(1) + seq![sep] + b);
        lemma_split_append_field(a.skip(1), b, sep);
        let r = split_bytes(s.skip(1), sep);
        let ra = split_bytes(a.skip(1), sep);
        lemma_split_len_pos(a.skip(1), sep);
        assert(r == ra + seq![b]);
        assert(r[0] == ra[0]);
        assert(seq![s[0]] + r[0] == seq![a[0]] + ra[0]);
        assert(r.skip(1) =~= ra.skip(1) + seq![b]);
        assert(split_bytes(s, sep) =~~= split_bytes(a, sep) + seq![b]);
    }
}

/// No field that splitting yields holds the separator.
pub proof fn lemma_split_parts_clean(s: Seq<u8>, sep: u8)
    ensures
        forall|k: int, j: int|
            0 <= k < split_bytes(s, sep).len() && 0 <= j < split_bytes(s, sep)[k].len()
                ==> split_bytes(s, sep)[k][j] != sep,
    decreases s.len(),
{
    let parts = split_bytes(s, sep);
    if s.len() == 0 {
    } else if s[0] == sep {
        lemma_split_parts_clean(s.skip(1), sep);
        let rest = split_bytes(s.skip(1), sep);
        assert forall|k: int, j: int|
            0 <= k < parts.len() && 0 <= j < parts[k].len() implies parts[k][j] != sep by {
            if k > 0 {
                assert(parts[k] == rest[k - 1]);
            }
        }
    } else {
        lemma_split_parts_clean(s.skip(1), sep);
        lemma_split_len_pos(s.skip(1), sep);
        let rest = split_bytes(s.skip(1), sep);
        assert forall|k: int, j: int|
            0 <= k < parts.len() && 0 <= j < parts[k].len() implies parts[k][j] != sep by {
            if k == 0 {
                assert(parts[0] == seq![s[0]] + rest[0]);
                if j == 0 {
                    assert(parts[0][0] == s[0]);
                } else {
                    assert(parts[0][j] == rest[0][j - 1]);
                }
            } else {
                assert(parts[k] == rest.skip(1)[k - 1]);
                assert(rest.skip(1)[k - 1] == rest[k]);
            }
        }
    }
}

/// The fields of `parts` joined back with `sep` between them.
pub open spec fn join_with(parts: Seq<Seq<u8>>, sep: u8) -> Seq<u8>
    decreases parts.len(),
{
    if parts.len() == 0 {
        Seq::empty()
    } else if parts.len() == 1 {
        parts[0]
    } else {
        parts[0] + seq![sep] + join_with(parts.skip(1), sep)
    }
}

/// Joining what splitting yielded gives the sequence back.
pub proof fn lemma_join_of_split(s: Seq<u8>, sep: u8)
    ensures
        join_with(split_bytes(s, sep), sep) == s,
    decreases s.len(),
{
    if s.len() == 0 {
    } else if s[0] == sep {
        lemma_join_of_split(s.skip(1), sep);
        lemma_split_len_pos(s.skip(1), sep);
        let rest = split_bytes(s.skip(1), sep);
        assert((seq![Seq::<u8>::empty()] + rest).skip(1) =~= rest);
        assert(Seq::<u8>::empty() + seq![sep] + s.skip(1) =~= s);
    } else {
        lemma_join_of_split(s.skip(1), sep);
        lemma_split_len_pos(s.skip(1), sep);
        let rest = split_bytes(s.skip(1), sep);
        if rest.len() == 1 {
            assert(join_with(rest, sep) == rest[0]);
            assert(seq![s[0]] + rest[0] =~= s);
        } else {
            assert((seq![seq![s[0]] + rest[0]] + rest.skip(1)).skip(1) =~= rest.skip(1));
            assert(seq![s[0]] + rest[0] + seq![sep] + join_with(rest.skip(1), sep) =~= seq![s[0]]
                + (rest[0] + seq![sep] + join_with(rest.skip(1), sep)));
            assert(seq![s[0]] + s.skip(1) =~= s);
        }
    }
}

/// Splits `s` on `sep`, returning every field in order.
pub fn split_on(s: &Vec<u8>, sep: u8) -> (parts: Vec<Vec<u8>>)
    ensures
        parts.deep_view() == split_bytes(s@, sep),
        parts@.len() == split_bytes(s@, sep).len(),
        forall|k: int| 0 <= k < parts@.len() ==> parts@[k]@ == split_bytes(s@, sep)[k],
{
    let mut parts: Vec<Vec<u8>> = Vec::new();
    let mut cur: Vec<u8> = Vec::new();
    let mut start: usize = 0;
    let mut i: usize = 0;
    proof {
        assert(parts.deep_view() =~= Seq::<Seq<u8>>::empty());
        assert(cur@ =~= s@.subrange(0, 0));
        assert(s@.skip(0) =~= s@);
    }
    while i < s.len()
        invariant
            start <= i <= s@.len(),
            cur@ == s@.subrange(start as int, i as int),
            forall|j: int| start <= j < i ==> s@[j] != sep,
            split_bytes(s@, sep) == parts.deep_view() + split_bytes(s@.skip(start as int), sep),
        decreases s@.len() - i,
    {
        if s[i] == sep {
            proof {
                assert(s@.skip(start as int) =~= cur@ + seq![sep] + s@.skip(i as int + 1));
                lemma_split_first_field(cur@, s@.skip(i as int + 1), sep);
            }
            let ghost prev = parts.deep_view();
            let ghost curv = cur@;
            parts.push(cur);
            proof {
                assert(parts.deep_view() =~~= prev + seq![curv]);
            }
            cur = Vec::new();
            start = i + 1;
            proof {
                assert(cur@ =~= s@.subrange(start as int, start as int));
            }
        } else {
            cur.push(s[i]);
            proof {
                assert(cur@ =~= s@.subrange(start as int, i as int + 1));
            }
        }
        i = i + 1;
    }
    proof {
        assert(s@.skip(start as int) =~= cur@);
        lemma_split_clean(cur@, sep);
    }
    let ghost prev = parts.deep_view();
    let ghost curv = cur@;
    parts.push(cur);
    proof {
        assert(parts.deep_view() =~~= prev + seq![curv]);
        assert(parts.deep_view() =~= split_bytes(s@, sep));
        assert forall|k: int| 0 <= k < parts@.len() implies parts@[k]@ == split_bytes(
            s@,
            sep,
        )[k] by {
            assert(parts.deep_view()[k] == parts@[k].deep_view());
            assert(parts@[k].deep_view() =~= parts@[k]@);
        }
    }
    parts
}

/// One line, its trailing carriage return removed.
pub open spec fn strip_cr(l: Seq<u8>) -> Seq<u8> {
    if l.len() > 0 && l[l.len() - 1] == CR {
        l.drop_last()
    } else {
        l
    }
}

/// The lines of a byte stream: split on line feeds, a trailing carriage
/// return removed from each line, and the empty segment after a final
/// line feed dropped.
pub open spec fn lines_of(s: Seq<u8>) -> Seq<Seq<u8>> {
    let raw = split_bytes(s, LF);
    let kept = if raw.len() > 0 && raw[raw.len() - 1].len() == 0 {
        raw.drop_last()
    } else {
        raw
    };
    kept.map_values(|l: Seq<u8>| strip_cr(l))
}

/// A sequence that can stand as one line of a stream: it holds no line
/// feed, and does not end in a carriage return that reading would strip.
pub open spec fn line_clean(r: Seq<u8>) -> bool {
    (forall|j: int| 0 <= j < r.len() ==> r[j] != LF) && (r.len() > 0 ==> r[r.len() - 1] != CR)
}

/// Splits a byte stream into its lines, as `lines_of` states them.
pub fn split_lines(s: &Vec<u8>) -> (lines: Vec<Vec<u8>>)
    ensures
        lines@.len() == lines_of(s@).len(),
        forall|k: int| 0 <= k < lines@.len() ==> lines@[k]@ == lines_of(s@)[k],
        forall|k: int, j: int|
            0 <= k < lines@.len() && 0 <= j < lines@[k]@.len() ==> lines@[k]@[j] != LF,
{
    let mut parts = split_on(s, LF);
    proof {
        lemma_split_len_pos(s@, LF);
        lemma_split_parts_clean(s@, LF);
    }
    if parts[parts.len() - 1].len() == 0 {
        parts.pop();
    }
    let ghost kept: Seq<Seq<u8>> = {
        let raw = split_bytes(s@, LF);
        if raw.len() > 0 && raw[raw.len() - 1].len() == 0 {
            raw.drop_last()
        } else {
            raw
        }
    };
    proof {
        assert(parts@.len() == kept.len());
        assert(forall|k: int| 0 <= k < parts@.len() ==> parts@[k]@ == kept[k]);
    }
    let mut lines: Vec<Vec<u8>> = Vec::new();
    let mut i: usize = 0;
    while i < parts.len()
        invariant
            i <= parts@.len(),
            parts@.len() == kept.len(),
            forall|k: int| 0 <= k < parts@.len() ==> parts@[k]@ == kept[k],
            lines@.len() == i,
            forall|k: int| 0 <= k < i ==> lines@[k]@ == strip_cr(kept[k]),
        decreases parts@.len() - i,
    {
        let p = &parts[i];
        if p.len() > 0 && p[p.len() - 1] == CR {
            lines.push(copy_range(p, 0, p.len() - 1));
            proof {
                assert(p@.subrange(0, p@.len() - 1) =~= strip_cr(kept[i as int]));
            }
        } else {
            lines.push(clone_bytes(p));
        }
        i = i + 1;
    }
    proof {
        assert forall|k: int, j: int|
            0 <= k < lines@.len() && 0 <= j < lines@[k]@.len() implies lines@[k]@[j] != LF by {
            assert(lines@[k]@ == strip_cr(kept[k]));
            assert(kept[k] == split_bytes(s@, LF)[k]);
            assert(lines@[k]@[j] == kept[k][j]);
        }
    }
    lines
}

/// Copies the bytes of `src`.
pub fn clone_bytes(src: &Vec<u8>) -> (out: Vec<u8>)
    ensures
        out@ == src@,
{
    let mut out: Vec<u8> = Vec::new();
    let mut i: usize = 0;
    while i < src.len()
        invariant
            i <= src@.len(),
            out@ == src@.subrange(0, i as int),
        decreases src@.len() - i,
    {
        out.push(src[i]);
        proof {
            assert(out@ =~= src@.subrange(0, i as int + 1));
        }
        i = i + 1;
    }
    proof {
        assert(out@ =~= src@);
    }
    out
}

/// Copies the bytes of `src` between `from` and `to`.
pub fn copy_range(src: &Vec<u8>, from: usize, to: usize) -> (out: Vec<u8>)
    requires
        from <= to <= src@.len(),
    ensures
        out@ == src@.subrange(from as int, to as int),
{
    let mut out: Vec<u8> = Vec::new();
    let mut i: usize = from;
    while i < to
        invariant
            from <= i <= to <= src@.len(),
            out@ == src@.subrange(from as int, i as int),
        decreases to - i,
    {
        out.push(src[i]);
        proof {
            assert(out@ =~= src@.subrange(from as int, i as int + 1));
        }
        i = i + 1;
    }
    out
}

/// Appends the bytes of `src` to `dst`.
pub fn push_all(dst: &mut Vec<u8>, src: &Vec<u8>)
    ensures
        final(dst)@ == old(dst)@ + src@,
{
    let mut i: usize = 0;
    while i < src.len()
        invariant
            i <= src@.len(),
            dst@ == old(dst)@ + src@.subrange(0, i as int),
        decreases src@.len() - i,
    {
        dst.push(src[i]);
        proof {
            assert(old(dst)@ + src@.subrange(0, i as int + 1) =~= (old(dst)@ + src@.subrange(
                0,
                i as int,
            )).push(src@[i as int]));
        }
        i = i + 1;
    }
    proof {
        assert(src@.subrange(0, src@.len() as int) =~= src@);
    }
}

} // verus!
