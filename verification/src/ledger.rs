//! The ledger record privacy query: enumerates the records a key holder
//! owns and reports, through derived tags or serial numbers, whether each
//! is spent.
//!
//! The record store and the two spent indexes are held as plain in-memory
//! data; a record is kept in the form the cast instruction produced it,
//! and spending is represented solely by index membership of a derived
//! marker, never by altering the record.
use vstd::prelude::*;
use crate::crypto::{serial_number_of, tag_of, derive_serial_number, derive_tag};
use crate::model::{dup_record, rv, Address, Literal, Owner, PlainV, Plaintext, Record, RecordV};

verus! {

broadcast use vstd::std_specs::vec::group_vec_axioms;

/// Key material enabling record discovery and fast spent checks: the
/// derived account address and the limited tag secret.
pub struct ViewKey {
    pub address: Address,
    pub sk_tag: Vec<u8>,
}

/// Key material enabling strong spent checks: the signing secret.
pub struct PrivateKey {
    pub sk_sig: Vec<u8>,
}

/// Which records a query keeps.
pub enum RecordsFilter {
    /// Every owned record, with no spent check.
    All,
    /// Owned records whose derived serial number is in the spent index.
    SlowSpent(PrivateKey),
    /// Owned records whose derived serial number is absent from it.
    SlowUnspent(PrivateKey),
    /// Owned records whose derived tag is in the tag index.
    Spent,
    /// Owned records whose derived tag is absent from it.
    Unspent,
}

/// The ledger state the query reads: the record store, in its enumeration
/// order, and the two spent indexes.
pub struct Ledger {
    pub records: Vec<(Vec<u8>, Record)>,
    pub spent_serial_numbers: Vec<Vec<u8>>,
    pub spent_tags: Vec<Vec<u8>>,
}

/// The byte views of a list of byte strings.
pub open spec fn bytes_seq_view(s: Seq<Vec<u8>>) -> Seq<Seq<u8>> {
    Seq::new(
        s.len(),
        |i: int|
            if 0 <= i < s.len() {
                s[i]@
            } else {
                Seq::empty()
            },
    )
}

/// The mathematical view of a list of commitment-record pairs.
pub open spec fn pairs_view(s: Seq<(Vec<u8>, Record)>) -> Seq<(Seq<u8>, RecordV)> {
    Seq::new(
        s.len(),
        |i: int|
            if 0 <= i < s.len() {
                (s[i].0@, rv(s[i].1))
            } else {
                (
                    Seq::empty(),
                    RecordV {
                        owner: crate::model::OwnerV::Public(Address { id: 0 }),
                        balance: crate::model::BalanceV::Public(0),
                        entries: Seq::empty(),
                    },
                )
            },
    )
}

/// The address a record is owned by, whether held publicly or as a private
/// address literal.
pub open spec fn owner_address(r: RecordV) -> Option<Address> {
    match r.owner {
        crate::model::OwnerV::Public(a) => Some(a),
        crate::model::OwnerV::Private(p) => match p {
            PlainV::Literal(Literal::Address(a)) => Some(a),
            _ => None,
        },
    }
}

/// Whether the given address owns the record.
pub open spec fn is_owner(r: RecordV, addr: Address) -> bool {
    owner_address(r) == Some(addr)
}

/// What the filter decides for one commitment: `Some(true)` keeps it,
/// `Some(false)` drops it, and `None` means the derivation failed and the
/// record is skipped.
pub open spec fn filter_keeps(
    f: RecordsFilter,
    sns: Seq<Seq<u8>>,
    tags: Seq<Seq<u8>>,
    sk_tag: Seq<u8>,
    c: Seq<u8>,
) -> Option<bool> {
    match f {
        RecordsFilter::All => Some(true),
        RecordsFilter::SlowSpent(pk) => match serial_number_of(pk.sk_sig@, c) {
            None => None,
            Some(sn) => Some(sns.contains(sn)),
        },
        RecordsFilter::SlowUnspent(pk) => match serial_number_of(pk.sk_sig@, c) {
            None => None,
            Some(sn) => Some(!sns.contains(sn)),
        },
        RecordsFilter::Spent => match tag_of(sk_tag, c) {
            None => None,
            Some(t) => Some(tags.contains(t)),
        },
        RecordsFilter::Unspent => match tag_of(sk_tag, c) {
            None => None,
            Some(t) => Some(!tags.contains(t)),
        },
    }
}

/// The exact result of the query: the subsequence of the record store, in
/// source order, of the records that the filter keeps and the address
/// owns; a record whose derivation fails is skipped.
pub open spec fn spec_find(
    records: Seq<(Seq<u8>, RecordV)>,
    f: RecordsFilter,
    sns: Seq<Seq<u8>>,
    tags: Seq<Seq<u8>>,
    addr: Address,
    sk_tag: Seq<u8>,
) -> Seq<(Seq<u8>, RecordV)>
    decreases records.len(),
{
    if records.len() == 0 {
        Seq::empty()
    } else {
        let pre = spec_find(records.drop_last(), f, sns, tags, addr, sk_tag);
        let kept = filter_keeps(f, sns, tags, sk_tag, records.last().0) == Some(true) && is_owner(
            records.last().1,
            addr,
        );
        if kept {
            pre.push(records.last())
        } else {
            pre
        }
    }
}

/// Copies a byte string.
fn dup_bytes(v: &Vec<u8>) -> (r: Vec<u8>)
    ensures
        r@ == v@,
{
    let mut out: Vec<u8> = Vec::new();
    let mut i: usize = 0;
    while i < v.len()
        invariant
            i <= v.len(),
            out@ == v@.take(i as int),
        decreases v.len() - i,
    {
        out.push(v[i]);
        proof {
            assert(out@ =~= v@.take(i + 1));
        }
        i = i + 1;
    }
    proof {
        assert(v@.take(v@.len() as int) =~= v@);
    }
    out
}

/// Compares two byte strings.
fn eq_bytes(a: &Vec<u8>, b: &Vec<u8>) -> (r: bool)
    ensures
        r == (a@ == b@),
{
    if a.len() != b.len() {
        return false;
    }
    let mut i: usize = 0;
    while i < a.len()
        invariant
            i <= a.len(),
            a@.len() == b@.len(),
            forall|j: int| 0 <= j < i as int ==> a@[j] == b@[j],
        decreases a.len() - i,
    {
        if a[i] != b[i] {
            return false;
        }
        i = i + 1;
    }
    proof {
        assert(a@ =~= b@);
    }
    true
}

/// Whether a byte string is present in an index.
fn contains_bytes(index: &Vec<Vec<u8>>, x: &Vec<u8>) -> (r: bool)
    ensures
        r == bytes_seq_view(index@).contains(x@),
{
    let mut i: usize = 0;
    while i < index.len()
        invariant
            i <= index.len(),
            forall|j: int| 0 <= j < i as int ==> bytes_seq_view(index@)[j] != x@,
        decreases index.len() - i,
    {
        if eq_bytes(&index[i], x) {
            proof {
                assert(bytes_seq_view(index@)[i as int] == x@);
            }
            return true;
        }
        i = i + 1;
    }
    proof {
        assert(forall|j: int| 0 <= j < index@.len() ==> bytes_seq_view(index@)[j] != x@);
    }
    false
}

/// Whether the given address owns the record.
pub fn record_is_owner(r: &Record, addr: &Address) -> (b: bool)
    ensures
        b == is_owner(rv(*r), *addr),
{
    match &r.owner {
        Owner::Public(a) => a.id == addr.id,
        Owner::Private(p) => match p {
            Plaintext::Literal(Literal::Address(a)) => a.id == addr.id,
            _ => false,
        },
    }
}

impl Ledger {
    /// Returns the records that belong to the given view key, in the
    /// store's enumeration order, filtered by spent status as the filter
    /// directs. A record whose marker derivation fails is skipped, never
    /// aborting the scan.
    pub fn find_records(&self, view_key: &ViewKey, filter: &RecordsFilter) -> (r: Vec<
        (Vec<u8>, Record),
    >)
        ensures
            pairs_view(r@) == spec_find(
                pairs_view(self.records@),
                *filter,
                bytes_seq_view(self.spent_serial_numbers@),
                bytes_seq_view(self.spent_tags@),
                view_key.address,
                view_key.sk_tag@,
            ),
    {
        let ghost recs = pairs_view(self.records@);
        let ghost sns = bytes_seq_view(self.spent_serial_numbers@);
        let ghost tags = bytes_seq_view(self.spent_tags@);
        let mut out: Vec<(Vec<u8>, Record)> = Vec::new();
        let mut i: usize = 0;
        proof {
            assert(recs.take(0) =~= Seq::<(Seq<u8>, RecordV)>::empty());
            assert(pairs_view(out@) =~= Seq::<(Seq<u8>, RecordV)>::empty());
        }
        while i < self.records.len()
            invariant
                i <= self.records@.len(),
                recs == pairs_view(self.records@),
                sns == bytes_seq_view(self.spent_serial_numbers@),
                tags == bytes_seq_view(self.spent_tags@),
                recs.len() == self.records@.len(),
                pairs_view(out@) == spec_find(
                    recs.take(i as int),
                    *filter,
                    sns,
                    tags,
                    view_key.address,
                    view_key.sk_tag@,
                ),
            decreases self.records.len() - i,
        {
            proof {
                assert(recs.take(i + 1).drop_last() =~= recs.take(i as int));
                assert(recs.take(i + 1).last() == recs[i as int]);
            }
            let c = &self.records[i].0;
            let keep: bool = match filter {
                RecordsFilter::All => true,
                RecordsFilter::SlowSpent(pk) => match derive_serial_number(&pk.sk_sig, c) {
                    Some(sn) => contains_bytes(&self.spent_serial_numbers, &sn),
                    None => false,
                },
                RecordsFilter::SlowUnspent(pk) => match derive_serial_number(&pk.sk_sig, c) {
                    Some(sn) => !contains_bytes(&self.spent_serial_numbers, &sn),
                    None => false,
                },
                RecordsFilter::Spent => match derive_tag(&view_key.sk_tag, c) {
                    Some(t) => contains_bytes(&self.spent_tags, &t),
                    None => false,
                },
                RecordsFilter::Unspent => match derive_tag(&view_key.sk_tag, c) {
                    Some(t) => !contains_bytes(&self.spent_tags, &t),
                    None => false,
                },
            };
            proof {
                assert(keep == (filter_keeps(*filter, sns, tags, view_key.sk_tag@, recs[i as int].0)
                    == Some(true)));
            }
            if keep && record_is_owner(&self.records[i].1, &view_key.address) {
                let ghost prev = out@;
                let cc = dup_bytes(c);
                let rr = dup_record(&self.records[i].1);
                out.push((cc, rr));
                proof {
                    assert(pairs_view(out@) =~= pairs_view(prev).push(recs[i as int]));
                }
            }
            i = i + 1;
        }
        proof {
            assert(recs.take(recs.len() as int) =~= recs);
        }
        out
    }
}

/// For any ledger state, address and tag secret, the tag-based spent and
/// unspent queries partition the owned records whose tag derivation
/// succeeds: the two results are disjoint, and together they hold exactly
/// the elements of the unfiltered owned enumeration whose commitment has a
/// derivable tag.
pub proof fn law_spent_unspent_partition(
    records: Seq<(Seq<u8>, RecordV)>,
    sns: Seq<Seq<u8>>,
    tags: Seq<Seq<u8>>,
    addr: Address,
    sk_tag: Seq<u8>,
)
    ensures
        forall|x: (Seq<u8>, RecordV)|
            #[trigger] spec_find(records, RecordsFilter::Spent, sns, tags, addr, sk_tag).contains(
                x,
            ) ==> tag_of(sk_tag, x.0) is Some && tags.contains(tag_of(sk_tag, x.0)->Some_0),
        forall|x: (Seq<u8>, RecordV)|
            #[trigger] spec_find(records, RecordsFilter::Unspent, sns, tags, addr, sk_tag).contains(
                x,
            ) ==> tag_of(sk_tag, x.0) is Some && !tags.contains(tag_of(sk_tag, x.0)->Some_0),
        forall|x: (Seq<u8>, RecordV)|
            #[trigger] spec_find(records, RecordsFilter::Spent, sns, tags, addr, sk_tag).contains(
                x,
            ) ==> !spec_find(records, RecordsFilter::Unspent, sns, tags, addr, sk_tag).contains(x),
        forall|x: (Seq<u8>, RecordV)|
            (#[trigger] spec_find(records, RecordsFilter::Spent, sns, tags, addr, sk_tag).contains(
                x,
            ) || spec_find(records, RecordsFilter::Unspent, sns, tags, addr, sk_tag).contains(x))
                <==> (spec_find(records, RecordsFilter::All, sns, tags, addr, sk_tag).contains(x)
                && tag_of(sk_tag, x.0) is Some),
    decreases records.len(),
{
    let spent = spec_find(records, RecordsFilter::Spent, sns, tags, addr, sk_tag);
    let unspent = spec_find(records, RecordsFilter::Unspent, sns, tags, addr, sk_tag);
    let all = spec_find(records, RecordsFilter::All, sns, tags, addr, sk_tag);
    if records.len() == 0 {
    } else {
        law_spent_unspent_partition(records.drop_last(), sns, tags, addr, sk_tag);
        let pre = records.drop_last();
        let spent0 = spec_find(pre, RecordsFilter::Spent, sns, tags, addr, sk_tag);
        let unspent0 = spec_find(pre, RecordsFilter::Unspent, sns, tags, addr, sk_tag);
        let all0 = spec_find(pre, RecordsFilter::All, sns, tags, addr, sk_tag);
        let last = records.last();
        assert forall|x: (Seq<u8>, RecordV)| #[trigger] spent.contains(x) implies tag_of(
            sk_tag,
            x.0,
        ) is Some && tags.contains(tag_of(sk_tag, x.0)->Some_0) by {
            lemma_push_or_same_contains(spent0, spent, last, x);
        }
        assert forall|x: (Seq<u8>, RecordV)| #[trigger] unspent.contains(x) implies tag_of(
            sk_tag,
            x.0,
        ) is Some && !tags.contains(tag_of(sk_tag, x.0)->Some_0) by {
            lemma_push_or_same_contains(unspent0, unspent, last, x);
        }
        assert forall|x: (Seq<u8>, RecordV)|
            (#[trigger] spent.contains(x) || unspent.contains(x)) implies (all.contains(x)
            && tag_of(sk_tag, x.0) is Some) by {
            lemma_push_or_same_contains(spent0, spent, last, x);
            lemma_push_or_same_contains(unspent0, unspent, last, x);
            lemma_push_or_same_contains(all0, all, last, x);
        }
        assert forall|x: (Seq<u8>, RecordV)|
            (all.contains(x) && tag_of(sk_tag, x.0) is Some) implies (#[trigger] spent.contains(x)
            || unspent.contains(x)) by {
            lemma_push_or_same_contains(spent0, spent, last, x);
            lemma_push_or_same_contains(unspent0, unspent, last, x);
            lemma_push_or_same_contains(all0, all, last, x);
        }
    }
}

/// Membership in a sequence that is either another one or another one with
/// one element pushed.
proof fn lemma_push_or_same_contains(
    pre: Seq<(Seq<u8>, RecordV)>,
    post: Seq<(Seq<u8>, RecordV)>,
    e: (Seq<u8>, RecordV),
    x: (Seq<u8>, RecordV),
)
    requires
        post == pre || post == pre.push(e),
    ensures
        post.contains(x) <==> (pre.contains(x) || (post == pre.push(e) && x == e)),
{
    if post == pre.push(e) {
        if pre.contains(x) {
            let i = choose|i: int| 0 <= i < pre.len() && pre[i] == x;
            assert(post[i] == x);
        }
        if post.contains(x) {
            let i = choose|i: int| 0 <= i < post.len() && post[i] == x;
            if i < pre.len() {
                assert(pre[i] == x);
            }
        }
        assert(post[pre.len() as int] == e);
    }
}

} // verus!
