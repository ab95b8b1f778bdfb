//! Party/share accounting: totals, index conversions, construction limits.

use tofn::collections::{Subset, TypedUsize};
use tofn::keygen::{KeygenPartyId, KeygenShareId};
use tofn::party_share_counts::PartyShareCounts;
use tofn::{MAX_PARTY_SHARE_COUNT, MAX_TOTAL_SHARE_COUNT};

type Counts = PartyShareCounts<KeygenPartyId>;

fn party(i: usize) -> TypedUsize<KeygenPartyId> {
    TypedUsize::from_usize(i)
}

#[test]
fn total_share_count_is_sum() {
    let counts = Counts::from_vec(vec![1, 2, 3, 4]).unwrap();
    assert_eq!(counts.total_share_count(), 10);
    assert_eq!(counts.party_count(), 4);
}

#[test]
fn party_share_round_trip() {
    let counts = Counts::from_vec(vec![1, 2, 3, 4]).unwrap();
    for p in 0..4usize {
        let c = counts.party_share_count(party(p)).unwrap();
        for k in 0..c {
            let share: TypedUsize<KeygenShareId> = counts.party_to_share_id(party(p), k).unwrap();
            let back = counts.share_to_party_id(share).unwrap();
            assert_eq!(back.as_usize(), p);
        }
    }
}

#[test]
fn share_ids_are_dense_and_ordered() {
    let counts = Counts::from_vec(vec![1, 2, 3, 4]).unwrap();
    assert_eq!(
        counts
            .party_to_share_id::<KeygenShareId>(party(1), 1)
            .unwrap()
            .as_usize(),
        2
    );
    assert_eq!(
        counts
            .party_to_share_id::<KeygenShareId>(party(3), 0)
            .unwrap()
            .as_usize(),
        6
    );
    assert!(counts.party_to_share_id::<KeygenShareId>(party(1), 2).is_err());
    assert!(counts.party_to_share_id::<KeygenShareId>(party(4), 0).is_err());
    assert!(counts
        .share_to_party_id(TypedUsize::<KeygenShareId>::from_usize(10))
        .is_err());
}

#[test]
fn construction_rejects_zero_share_party() {
    assert!(Counts::from_vec(vec![1, 0, 3]).is_err());
}

#[test]
fn construction_rejects_party_over_cap() {
    assert!(Counts::from_vec(vec![1, MAX_PARTY_SHARE_COUNT + 1]).is_err());
}

#[test]
fn construction_rejects_total_over_cap() {
    assert!(Counts::from_vec(vec![600, 600]).is_err());
    assert!(Counts::from_vec(vec![MAX_TOTAL_SHARE_COUNT, 1]).is_err());
}

#[test]
fn share_id_subset_ascending() {
    let counts = Counts::from_vec(vec![1, 2, 3, 4]).unwrap();
    let mut sel = Subset::with_max_size(4);
    sel.add(party(0)).unwrap();
    sel.add(party(1)).unwrap();
    sel.add(party(3)).unwrap();
    assert_eq!(counts.subset_weight(&sel).unwrap(), 7);
    let ids: Vec<usize> = counts
        .share_id_subset::<KeygenShareId>(&sel)
        .unwrap()
        .iter()
        .map(|id| id.as_usize())
        .collect();
    assert_eq!(ids, vec![0, 1, 2, 6, 7, 8, 9]);
}

#[test]
fn subset_rejects_duplicates_and_out_of_range() {
    let mut sel: Subset<KeygenPartyId> = Subset::with_max_size(2);
    sel.add(party(0)).unwrap();
    assert!(sel.add(party(0)).is_err());
    assert!(sel.add(party(2)).is_err());
    assert!(sel.is_member(party(0)));
    assert!(!sel.is_member(party(1)));
}
