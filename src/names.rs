use vstd::prelude::*;

verus! {

/// Case-sensitive ordinal order on names: lexicographic over code points.
pub open spec fn name_lt(a: Seq<char>, b: Seq<char>) -> bool
    decreases a.len(),
{
    if b.len() == 0 {
        false
    } else if a.len() == 0 {
        true
    } else if a[0] != b[0] {
        (a[0] as int) < (b[0] as int)
    } else {
        name_lt(a.drop_first(), b.drop_first())
    }
}

pub proof fn lemma_name_lt_irreflexive(a: Seq<char>)
    ensures
        !name_lt(a, a),
    decreases a.len(),
{
    if a.len() > 0 {
        lemma_name_lt_irreflexive(a.drop_first());
    }
}

pub proof fn lemma_name_lt_transitive(a: Seq<char>, b: Seq<char>, c: Seq<char>)
    requires
        name_lt(a, b),
        name_lt(b, c),
    ensures
        name_lt(a, c),
    decreases a.len(),
{
    if a.len() > 0 && a[0] == b[0] && b[0] == c[0] {
        lemma_name_lt_transitive(a.drop_first(), b.drop_first(), c.drop_first());
    }
}

proof fn lemma_name_lt_common_prefix(a: Seq<char>, b: Seq<char>, i: int)
    requires
        0 <= i <= a.len(),
        i <= b.len(),
        a.take(i) == b.take(i),
    ensures
        name_lt(a, b) == name_lt(a.skip(i), b.skip(i)),
    decreases i,
{
    if i > 0 {
        assert(a[0] == a.take(i)[0]);
        assert(b[0] == b.take(i)[0]);
        assert(a.drop_first().take(i - 1) =~= a.take(i).drop_first());
        assert(b.drop_first().take(i - 1) =~= b.take(i).drop_first());
        lemma_name_lt_common_prefix(a.drop_first(), b.drop_first(), i - 1);
        assert(a.drop_first().skip(i - 1) =~= a.skip(i));
        assert(b.drop_first().skip(i - 1) =~= b.skip(i));
    } else {
        assert(a.skip(0) =~= a);
        assert(b.skip(0) =~= b);
    }
}

/// Compares two names in ordinal order: -1, 0 or 1.
pub fn compare_names(a: &str, b: &str) -> (r: i8)
    ensures
        r == 0 <==> a@ == b@,
        r < 0 <==> name_lt(a@, b@),
        r > 0 <==> name_lt(b@, a@),
        -1 <= r <= 1,
{
    let la = a.unicode_len();
    let lb = b.unicode_len();
    let mut i: usize = 0;
    while i < la && i < lb
        invariant
            la == a@.len(),
            lb == b@.len(),
            i <= la,
            i <= lb,
            a@.take(i as int) == b@.take(i as int),
        decreases la - i,
    {
        let ca = a.get_char(i);
        let cb = b.get_char(i);
        if ca != cb {
            proof {
                lemma_name_lt_common_prefix(a@, b@, i as int);
                lemma_name_lt_common_prefix(b@, a@, i as int);
                assert(a@.skip(i as int)[0] == ca);
                assert(b@.skip(i as int)[0] == cb);
                assert(a@.take(i as int).push(ca) != b@.take(i as int).push(cb)) by {
                    assert(a@.take(i as int).push(ca)[i as int] == ca);
                    assert(b@.take(i as int).push(cb)[i as int] == cb);
                }
                assert(a@.take(i as int + 1) =~= a@.take(i as int).push(ca));
                assert(b@.take(i as int + 1) =~= b@.take(i as int).push(cb));
                assert(a@.take(i as int + 1) == a@.subrange(0, i as int + 1));
                assert(b@.take(i as int + 1) == b@.subrange(0, i as int + 1));
            }
            if (ca as u32) < (cb as u32) {
                return -1;
            } else {
                return 1;
            }
        }
        proof {
            assert(a@.take(i as int + 1) =~= a@.take(i as int).push(ca));
            assert(b@.take(i as int + 1) =~= b@.take(i as int).push(cb));
        }
        i = i + 1;
    }
    proof {
        lemma_name_lt_common_prefix(a@, b@, i as int);
        lemma_name_lt_common_prefix(b@, a@, i as int);
        if i == la {
            assert(a@ =~= a@.take(i as int));
        }
        if i == lb {
            assert(b@ =~= b@.take(i as int));
        }
        if la == lb {
            assert(a@ =~= b@.take(i as int));
        } else {
            assert(a@.len() != b@.len());
        }
    }
    if la < lb {
        -1
    } else if la > lb {
        1
    } else {
        0
    }
}

} // verus!
