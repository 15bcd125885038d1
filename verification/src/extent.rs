//! How far a read looks: the bytes after what a reader reports as used do not
//! change what it reads.
use vstd::prelude::*;

use crate::model::{
    read_int, read_uint, take_blob, take_entries, take_entry, take_error, take_handle, take_mapping, take_pairs,
    take_scalar, take_table, take_value, take_value_list, take_values, take_variant, Outcome,
    ValueModel,
};

verus! {

broadcast use crate::group_deque_models;

/// Whether `s` and `t` both have at least `k` bytes, and the same first `k` bytes.
pub open spec fn agree(s: Seq<u8>, t: Seq<u8>, k: int) -> bool {
    &&& 0 <= k <= s.len()
    &&& k <= t.len()
    &&& forall|i: int| 0 <= i < k ==> #[trigger] s[i] == t[i]
}

/// Whether the read of `s` looks at no byte past the length it reports. Only an
/// error or a handle looks further (one byte: its last integer is read one byte
/// late), and only where it is the last thing read: the value itself, the value
/// a variant holds (or drops), or the last value of a structure or an array. A
/// mapping reads its pairs from one byte early, and a table reads its values from
/// windows of their own, so neither looks further.
pub open spec fn tight(s: Seq<u8>) -> bool
    decreases s.len(), 1nat, 0nat,
{
    if s.len() == 0 {
        true
    } else if s[0] == 0xb6 || s[0] == 0xb7 {
        false
    } else if s[0] == 0xb8 {
        match read_int(s) {
            Outcome::Done(a, _) => if a + 1 <= s.len() {
                tight(s.subrange(a + 1 as int, s.len() as int))
            } else {
                true
            },
            _ => true,
        }
    } else if s[0] == 0xb9 || s[0] == 0xba {
        match read_uint(s) {
            Outcome::Done(a, k) => if a + 1 <= s.len() {
                tight_last(s.subrange(a + 1 as int, s.len() as int), k as nat)
            } else {
                true
            },
            _ => true,
        }
    } else {
        true
    }
}

/// Whether the last of `k` values read one after the other from `r` is [`tight`].
pub open spec fn tight_last(r: Seq<u8>, k: nat) -> bool
    decreases r.len(), 2nat, k,
{
    if k == 0 {
        true
    } else if k == 1 {
        tight(r)
    } else {
        match take_value(r) {
            Outcome::Done(n, _) => if n <= r.len() {
                tight_last(r.subrange(n as int, r.len() as int), (k - 1) as nat)
            } else {
                true
            },
            _ => true,
        }
    }
}

/// Dropping the same first `a` bytes of two sequences that agree on `k` bytes.
proof fn lemma_agree_skip(s: Seq<u8>, t: Seq<u8>, k: int, a: int)
    requires
        agree(s, t, k),
        0 <= a <= k,
    ensures
        agree(s.subrange(a, s.len() as int), t.subrange(a, t.len() as int), k - a),
{
    let s1 = s.subrange(a, s.len() as int);
    let t1 = t.subrange(a, t.len() as int);
    assert forall|i: int| 0 <= i < k - a implies #[trigger] s1[i] == t1[i] by {
        assert(s1[i] == s[i + a]);
        assert(t1[i] == t[i + a]);
    }
}

proof fn lemma_uint(s: Seq<u8>, t: Seq<u8>)
    requires
        read_uint(s) matches Outcome::Done(n, _) && agree(s, t, (n + 1) as int),
    ensures
        read_uint(t) == read_uint(s),
{
    assert(s[1] == t[1]);
    if s[1] == 0x80 {
        assert(s[2] == t[2]);
    } else if s[1] == 0x81 {
        assert(s.subrange(2, 4) =~= t.subrange(2, 4));
    } else if s[1] == 0x82 {
        assert(s.subrange(2, 6) =~= t.subrange(2, 6));
    } else if s[1] == 0x83 {
        assert(s.subrange(2, 10) =~= t.subrange(2, 10));
    }
}

proof fn lemma_int(s: Seq<u8>, t: Seq<u8>)
    requires
        read_int(s) matches Outcome::Done(n, _) && agree(s, t, (n + 1) as int),
    ensures
        read_int(t) == read_int(s),
{
    assert(s[1] == t[1]);
    if s[1] == 0x84 {
        assert(s[2] == t[2]);
    } else if s[1] == 0x85 {
        assert(s.subrange(2, 4) =~= t.subrange(2, 4));
    } else if s[1] == 0x86 {
        assert(s.subrange(2, 6) =~= t.subrange(2, 6));
    } else if s[1] == 0x87 {
        assert(s.subrange(2, 10) =~= t.subrange(2, 10));
    }
}

proof fn lemma_blob(s: Seq<u8>, t: Seq<u8>)
    requires
        take_blob(s) matches Outcome::Done(n, _) && agree(s, t, (n + 1) as int),
    ensures
        take_blob(t) == take_blob(s),
{
    if let Outcome::Done(a, len) = read_uint(s) {
        lemma_uint(s, t);
        assert(s.subrange(a + 1 as int, a + 1 + len as int) =~= t.subrange(
            a + 1 as int,
            a + 1 + len as int,
        ));
    }
}

proof fn lemma_scalar(s: Seq<u8>, t: Seq<u8>)
    requires
        s.len() >= 1,
        take_scalar(s) matches Outcome::Done(n, _) && agree(s, t, n as int),
    ensures
        take_scalar(t) == take_scalar(s),
{
    assert(s[0] == t[0]);
    let n = take_scalar(s)->Done_0;
    if n >= 2 {
        assert(s[1] == t[1]);
    }
    if n == 3 {
        assert(s.subrange(1, 3) =~= t.subrange(1, 3));
    } else if n == 5 {
        assert(s.subrange(1, 5) =~= t.subrange(1, 5));
    } else if n == 9 {
        assert(s.subrange(1, 9) =~= t.subrange(1, 9));
    }
}

/// A read that reports `n` bytes reads the same from any input that agrees with
/// its own on the first `n + 1` bytes, and on the first `n` where it is tight.
proof fn lemma_value(s: Seq<u8>, t: Seq<u8>, e: int)
    requires
        e == 0 || e == 1,
        take_value(s) matches Outcome::Done(n, _) && (e == 1 || tight(s)) && agree(s, t, n + e),
    ensures
        take_value(t) == take_value(s),
    decreases s.len(), 1nat, 0nat,
{
    assert(s[0] == t[0]);
    let tag = s[0];
    if tag <= 0x89 || tag >= 0xc0 {
        lemma_scalar(s, t);
    } else if tag == 0xb5 {
        lemma_table(s, t);
    } else if tag == 0xb6 {
        if e == 1 {
            lemma_error(s, t);
        }
    } else if tag == 0xb7 {
        if e == 1 {
            lemma_handle(s, t);
        }
    } else if tag == 0xb8 {
        lemma_variant(s, t, e);
    } else if tag == 0xb9 || tag == 0xba {
        lemma_values(s, t, e);
    } else if tag == 0xbb {
        lemma_mapping(s, t, e);
    } else if tag == 0xbc || tag == 0xbd {
        lemma_blob(s, t);
    }
}

/// Every value read uses at least one byte.
proof fn lemma_value_uses_a_byte(s: Seq<u8>)
    ensures
        take_value(s) matches Outcome::Done(n, _) ==> n >= 1,
{
}

proof fn lemma_error(s: Seq<u8>, t: Seq<u8>)
    requires
        take_error(s) matches Outcome::Done(n, _) && agree(s, t, (n + 2) as int),
    ensures
        take_error(t) == take_error(s),
{
    let n = take_error(s)->Done_0;
    lemma_agree_skip(s, t, (n + 2) as int, 1);
    lemma_int(s.subrange(1, s.len() as int), t.subrange(1, t.len() as int));
}

proof fn lemma_handle(s: Seq<u8>, t: Seq<u8>)
    requires
        take_handle(s) matches Outcome::Done(n, _) && agree(s, t, (n + 2) as int),
    ensures
        take_handle(t) == take_handle(s),
    decreases s.len(), 0nat, 0nat,
{
    let n = take_handle(s)->Done_0;
    let c = s.subrange(1, s.len() as int);
    let ct = t.subrange(1, t.len() as int);
    lemma_agree_skip(s, t, (n + 2) as int, 1);
    let n1 = take_value(c)->Done_0;
    lemma_value(c, ct, 1);
    lemma_agree_skip(c, ct, (n + 1) as int, n1 as int);
    lemma_int(c.subrange(n1 as int, c.len() as int), ct.subrange(n1 as int, ct.len() as int));
}

proof fn lemma_table(s: Seq<u8>, t: Seq<u8>)
    requires
        take_table(s) matches Outcome::Done(n, _) && agree(s, t, (n + 1) as int),
    ensures
        take_table(t) == take_table(s),
    decreases s.len(), 0nat, 0nat,
{
    let n = take_table(s)->Done_0;
    let n1 = read_uint(s)->Done_0;
    lemma_uint(s, t);
    let s1 = s.subrange(n1 as int, s.len() as int);
    let t1 = t.subrange(n1 as int, t.len() as int);
    lemma_agree_skip(s, t, (n + 1) as int, n1 as int);
    let n2 = read_uint(s1)->Done_0;
    lemma_uint(s1, t1);
    let s2 = s1.subrange(n2 as int, s1.len() as int);
    let t2 = t1.subrange(n2 as int, t1.len() as int);
    lemma_agree_skip(s1, t1, n + 1 - n1, n2 as int);
    lemma_entries(s2, t2, read_uint(s1)->Done_1 as nat);
}

proof fn lemma_entries(r: Seq<u8>, t: Seq<u8>, k: nat)
    requires
        take_entries(r, k) matches Outcome::Done(n, _) && agree(r, t, (n + 1) as int),
    ensures
        take_entries(t, k) == take_entries(r, k),
    decreases r.len(), 2nat, k,
{
    if k > 0 {
        let total = take_entries(r, k)->Done_0;
        let n = take_entry(r)->Done_0;
        lemma_entry(r, t);
        lemma_agree_skip(r, t, (total + 1) as int, n as int);
        lemma_entries(
            r.subrange(n as int, r.len() as int),
            t.subrange(n as int, t.len() as int),
            (k - 1) as nat,
        );
    }
}

proof fn lemma_entry(r: Seq<u8>, t: Seq<u8>)
    requires
        take_entry(r) matches Outcome::Done(n, _) && agree(r, t, (n + 1) as int),
    ensures
        take_entry(t) == take_entry(r),
    decreases r.len(), 0nat, 0nat,
{
    let total = take_entry(r)->Done_0;
    let a = read_uint(r)->Done_0;
    lemma_uint(r, t);
    let c = r.subrange(a as int, r.len() as int);
    let ct = t.subrange(a as int, t.len() as int);
    lemma_agree_skip(r, t, (total + 1) as int, a as int);
    let d = read_uint(c)->Done_0;
    let len = read_uint(c)->Done_1;
    lemma_uint(c, ct);
    assert(c.subrange(d as int, d + len) =~= ct.subrange(d as int, d + len));
}

proof fn lemma_variant(s: Seq<u8>, t: Seq<u8>, e: int)
    requires
        e == 0 || e == 1,
        s.len() > 0 && s[0] == 0xb8,
        take_variant(s) matches Outcome::Done(n, _) && (e == 1 || tight(s)) && agree(
            s,
            t,
            n + 1 + e,
        ),
    ensures
        take_variant(t) == take_variant(s),
    decreases s.len(), 0nat, 0nat,
{
    let total = take_variant(s)->Done_0;
    let a = read_int(s)->Done_0;
    lemma_int(s, t);
    let r = s.subrange(a + 1 as int, s.len() as int);
    let rt = t.subrange(a + 1 as int, t.len() as int);
    lemma_agree_skip(s, t, total + 1 + e, a + 1 as int);
    lemma_value(r, rt, e);
}

proof fn lemma_values(s: Seq<u8>, t: Seq<u8>, e: int)
    requires
        e == 0 || e == 1,
        s.len() > 0 && (s[0] == 0xb9 || s[0] == 0xba),
        take_values(s) matches Outcome::Done(n, _) && (e == 1 || tight(s)) && agree(
            s,
            t,
            n + 1 + e,
        ),
    ensures
        take_values(t) == take_values(s),
    decreases s.len(), 0nat, 0nat,
{
    let total = take_values(s)->Done_0;
    let a = read_uint(s)->Done_0;
    lemma_uint(s, t);
    let r = s.subrange(a + 1 as int, s.len() as int);
    let rt = t.subrange(a + 1 as int, t.len() as int);
    lemma_agree_skip(s, t, total + 1 + e, a + 1 as int);
    let count = read_uint(s)->Done_1 as nat;
    assert(take_value_list(r, count) == Outcome::Done(
        (total - a) as nat,
        take_values(s)->Done_1,
    ));
    lemma_list(r, rt, count, e);
}

proof fn lemma_list(r: Seq<u8>, t: Seq<u8>, k: nat, e: int)
    requires
        e == 0 || e == 1,
        take_value_list(r, k) matches Outcome::Done(n, _) && (e == 1 || tight_last(r, k))
            && agree(r, t, n + e),
    ensures
        take_value_list(t, k) == take_value_list(r, k),
    decreases r.len(), 2nat, k,
{
    if k > 0 {
        let total = take_value_list(r, k)->Done_0;
        let n = take_value(r)->Done_0;
        let r1 = r.subrange(n as int, r.len() as int);
        let t1 = t.subrange(n as int, t.len() as int);
        if k == 1 {
            lemma_value(r, t, e);
        } else {
            lemma_value_uses_a_byte(r1);
            let rest = take_value_list(r1, (k - 1) as nat);
            assert(rest->Done_0 >= take_value(r1)->Done_0);
            assert(total == n + rest->Done_0);
            lemma_value(r, t, 1);
        }
        lemma_agree_skip(r, t, total + e, n as int);
        lemma_list(r1, t1, (k - 1) as nat, e);
    }
}

proof fn lemma_mapping(s: Seq<u8>, t: Seq<u8>, e: int)
    requires
        e == 0 || e == 1,
        take_mapping(s) matches Outcome::Done(n, _) && agree(s, t, n + 1 + e),
    ensures
        take_mapping(t) == take_mapping(s),
    decreases s.len(), 0nat, 0nat,
{
    let total = take_mapping(s)->Done_0;
    let a = read_uint(s)->Done_0;
    lemma_uint(s, t);
    let r = s.subrange(a as int, s.len() as int);
    let rt = t.subrange(a as int, t.len() as int);
    lemma_agree_skip(s, t, total + 1 + e, a as int);
    let count = read_uint(s)->Done_1 as nat;
    assert(take_pairs(r, count) == Outcome::Done(
        (total - a) as nat,
        take_pairs(r, count)->Done_1,
    ));
    lemma_pairs(r, rt, count);
}

/// The pairs of a mapping start one byte early, so the one byte that their last
/// value may look past its length is within the mapping's length.
proof fn lemma_pairs(r: Seq<u8>, t: Seq<u8>, k: nat)
    requires
        take_pairs(r, k) matches Outcome::Done(n, _) && agree(r, t, (n + 1) as int),
    ensures
        take_pairs(t, k) == take_pairs(r, k),
    decreases r.len(), 2nat, k,
{
    if k > 0 {
        let total = take_pairs(r, k)->Done_0;
        let n1 = take_value(r)->Done_0;
        let r1 = r.subrange(n1 as int, r.len() as int);
        let t1 = t.subrange(n1 as int, t.len() as int);
        let n2 = take_value(r1)->Done_0;
        let r2 = r1.subrange(n2 as int, r1.len() as int);
        let t2 = t1.subrange(n2 as int, t1.len() as int);
        lemma_value(r, t, 1);
        lemma_agree_skip(r, t, (total + 1) as int, n1 as int);
        lemma_value(r1, t1, 1);
        lemma_agree_skip(r1, t1, total - n1 + 1, n2 as int);
        lemma_pairs(r2, t2, (k - 1) as nat);
    }
}

/// A read that looks at no byte past the `n` bytes it reports (see [`tight`])
/// gives the same value whatever follows those `n` bytes.
pub proof fn law_read_ignores_what_follows(s: Seq<u8>, n: nat, m: ValueModel, extra: Seq<u8>)
    requires
        take_value(s) == Outcome::Done(n, m),
        n <= s.len(),
        tight(s),
    ensures
        take_value(s.subrange(0, n as int) + extra) == Outcome::Done(n, m),
{
    let t = s.subrange(0, n as int) + extra;
    assert forall|i: int| 0 <= i < n implies #[trigger] s[i] == t[i] by {
        assert(t[i] == s[i]);
    }
    lemma_value(s, t, 0);
}

/// A read that reports `n` bytes gives the same value whatever follows the byte
/// after them, for every value: errors and handles, whose last integer is read one
/// byte late, look one byte past the reported length, and no read looks further.
pub proof fn law_read_looks_one_byte_further(
    s: Seq<u8>,
    n: nat,
    m: ValueModel,
    extra: Seq<u8>,
)
    requires
        take_value(s) == Outcome::Done(n, m),
        n + 1 <= s.len(),
    ensures
        take_value(s.subrange(0, (n + 1) as int) + extra) == Outcome::Done(n, m),
{
    let t = s.subrange(0, (n + 1) as int) + extra;
    assert forall|i: int| 0 <= i < n + 1 implies #[trigger] s[i] == t[i] by {
        assert(t[i] == s[i]);
    }
    lemma_value(s, t, 1);
}

} // verus!
