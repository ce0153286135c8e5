//! Deriving the output path from the input path: the file name's stem is
//! suffixed `_chk`, the extension and the directory are kept.

use vstd::prelude::*;
use crate::split::{copy_range, push_all};

verus! {

/// The path separator.
pub const SLASH: u8 = 47;

/// The extension separator.
pub const NAME_DOT: u8 = 46;

/// Where the file name begins: just after the last slash, or at the
/// start of the path when it has none.
pub open spec fn basename_start(p: Seq<u8>) -> int
    decreases p.len(),
{
    if p.len() == 0 {
        0
    } else if p[p.len() - 1] == SLASH {
        p.len() as int
    } else {
        basename_start(p.drop_last())
    }
}

/// A slash-free tail does not move the file name's start.
proof fn lemma_basename_start_extend(p: Seq<u8>, k: int)
    requires
        0 <= k <= p.len(),
        forall|j: int| k <= j < p.len() ==> p[j] != SLASH,
    ensures
        basename_start(p) == basename_start(p.take(k)),
    decreases p.len() - k,
{
    if k == p.len() {
        assert(p.take(k) =~= p);
    } else {
        lemma_basename_start_extend(p.drop_last(), k);
        assert(p.drop_last().take(k) =~= p.take(k));
    }
}

/// The file name's start lies within the path.
pub proof fn lemma_basename_start_bounds(p: Seq<u8>)
    ensures
        0 <= basename_start(p) <= p.len(),
    decreases p.len(),
{
    if p.len() == 0 {
    } else if p[p.len() - 1] == SLASH {
    } else {
        lemma_basename_start_bounds(p.drop_last());
    }
}

/// The position of the dot that separates stem and extension within a
/// file name: the last dot other than a leading one, or zero when the
/// name has no extension. A name's first byte never separates, so a
/// leading dot alone — a hidden file — leaves the whole name as the stem.
pub open spec fn last_sep_dot(name: Seq<u8>) -> int
    decreases name.len(),
{
    if name.len() <= 1 {
        0
    } else if name[name.len() - 1] == NAME_DOT {
        name.len() - 1
    } else {
        last_sep_dot(name.drop_last())
    }
}

/// A dot-free tail does not move the separating dot.
proof fn lemma_last_sep_dot_extend(name: Seq<u8>, k: int)
    requires
        1 <= k <= name.len(),
        forall|j: int| k <= j < name.len() ==> name[j] != NAME_DOT,
    ensures
        last_sep_dot(name) == last_sep_dot(name.take(k)),
    decreases name.len() - k,
{
    if k == name.len() {
        assert(name.take(k) =~= name);
    } else {
        lemma_last_sep_dot_extend(name.drop_last(), k);
        assert(name.drop_last().take(k) =~= name.take(k));
    }
}

/// The separating dot lies within the name, and never at its head.
pub proof fn lemma_last_sep_dot_bounds(name: Seq<u8>)
    ensures
        0 <= last_sep_dot(name),
        name.len() == 0 ==> last_sep_dot(name) == 0,
        name.len() > 0 ==> last_sep_dot(name) < name.len(),
    decreases name.len(),
{
    if name.len() <= 1 {
    } else if name[name.len() - 1] == NAME_DOT {
    } else {
        lemma_last_sep_dot_bounds(name.drop_last());
    }
}

/// The suffix `_chk` that the stem gains.
pub open spec fn chk_suffix() -> Seq<u8> {
    seq![95u8, 99u8, 104u8, 107u8]
}

/// The derived output path: directory part kept, then the stem, then
/// `_chk`, then the dot and the extension when the name has one — a
/// name without an extension stays without one.
pub open spec fn output_name_spec(p: Seq<u8>) -> Seq<u8> {
    let bs = basename_start(p);
    let name = p.skip(bs);
    let d = last_sep_dot(name);
    if d == 0 {
        p.take(bs) + name + chk_suffix()
    } else {
        p.take(bs) + name.take(d) + chk_suffix() + seq![NAME_DOT] + name.skip(d + 1)
    }
}

/// A path names a file when something follows its last slash, and that
/// something is neither of the two relative-directory names.
pub open spec fn input_name_ok(p: Seq<u8>) -> bool {
    let name = p.skip(basename_start(p));
    name.len() > 0 && name != seq![NAME_DOT] && name != seq![NAME_DOT, NAME_DOT]
}

/// Finds where the file name begins.
fn find_basename_start(input: &Vec<u8>) -> (bs: usize)
    ensures
        bs as int == basename_start(input@),
        bs <= input@.len(),
{
    proof {
        lemma_basename_start_bounds(input@);
    }
    let mut bs: usize = input.len();
    while bs > 0 && input[bs - 1] != SLASH
        invariant
            bs <= input@.len(),
            forall|j: int| bs <= j < input@.len() ==> input@[j] != SLASH,
        decreases bs,
    {
        bs = bs - 1;
    }
    proof {
        lemma_basename_start_extend(input@, bs as int);
        if bs > 0 {
            assert(input@.take(bs as int)[bs - 1] == SLASH);
        }
    }
    bs
}

/// Whether the path is one the output name can be derived from.
pub fn valid_input_name(input: &Vec<u8>) -> (r: bool)
    ensures
        r == input_name_ok(input@),
{
    let bs = find_basename_start(input);
    let n = input.len() - bs;
    proof {
        let name = input@.skip(bs as int);
        assert(name.len() == n);
        if n == 1 && input@[bs as int] == NAME_DOT {
            assert(name =~= seq![NAME_DOT]);
        }
        if n == 2 && input@[bs as int] == NAME_DOT && input@[bs as int + 1] == NAME_DOT {
            assert(name =~= seq![NAME_DOT, NAME_DOT]);
        }
        if name == seq![NAME_DOT] {
            assert(name[0] == NAME_DOT);
        }
        if name == seq![NAME_DOT, NAME_DOT] {
            assert(name[0] == NAME_DOT && name[1] == NAME_DOT);
        }
    }
    if n == 0 {
        return false;
    }
    if n == 1 && input[bs] == NAME_DOT {
        return false;
    }
    if n == 2 && input[bs] == NAME_DOT && input[bs + 1] == NAME_DOT {
        return false;
    }
    true
}

/// Derives the output path from the input path, exactly as
/// `output_name_spec` states it: the stem gains the `_chk` suffix, the
/// directory and the extension stay as they are — also when there is no
/// extension at all.
pub fn generer_nom_sortie(input: &Vec<u8>) -> (out: Vec<u8>)
    requires
        input_name_ok(input@),
    ensures
        out@ == output_name_spec(input@),
{
    let bs = find_basename_start(input);
    let name = copy_range(input, bs, input.len());
    proof {
        lemma_last_sep_dot_bounds(name@);
    }
    let mut k: usize = name.len();
    while k > 1 && name[k - 1] != NAME_DOT
        invariant
            k <= name@.len(),
            forall|j: int| k <= j < name@.len() ==> name@[j] != NAME_DOT,
        decreases k,
    {
        k = k - 1;
    }
    let d: usize;
    if k > 1 {
        d = k - 1;
        proof {
            lemma_last_sep_dot_extend(name@, k as int);
            assert(name@.take(k as int)[k - 1] == NAME_DOT);
        }
    } else {
        d = 0;
        proof {
            if name@.len() >= 1 {
                lemma_last_sep_dot_extend(name@, 1);
            }
        }
    }
    let mut out = copy_range(input, 0, bs);
    if d == 0 {
        push_all(&mut out, &name);
    } else {
        let stem = copy_range(&name, 0, d);
        push_all(&mut out, &stem);
    }
    out.push(95);
    out.push(99);
    out.push(104);
    out.push(107);
    if d == 0 {
        proof {
            assert(out@ =~= output_name_spec(input@));
        }
        return out;
    }
    out.push(NAME_DOT);
    let ext = copy_range(&name, d + 1, name.len());
    push_all(&mut out, &ext);
    proof {
        assert(out@ =~= output_name_spec(input@));
    }
    out
}

} // verus!
