use voidframe::affinity::{compute_mask, CoreGroup, CpuTopology};
use voidframe::module::AffinityMode;

fn topo(smt: bool) -> CpuTopology {
    let cores = (0..4u32)
        .map(|i| {
            let ids = if smt { vec![i * 2, i * 2 + 1] } else { vec![i] };
            CoreGroup {
                physical_id: i,
                logical_ids: ids,
                is_efficiency: i >= 2,
                ccd: Some(if i < 2 { 0 } else { 1 }),
            }
        })
        .collect();
    CpuTopology { cores, smt_enabled: smt, group_count: 1 }
}

#[test]
fn exclude_core0_drops_both_siblings_when_smt() {
    let m = compute_mask(AffinityMode::ExcludeCore0, None, &topo(true)).unwrap();
    assert_eq!(m & 0b11, 0);
    assert_eq!(m, 0b1111_1100);
}

#[test]
fn exclude_core0_drops_only_id0_without_smt() {
    let m = compute_mask(AffinityMode::ExcludeCore0, None, &topo(false)).unwrap();
    assert_eq!(m, 0b1110);
}

#[test]
fn pcore_only_selects_non_efficiency_cores() {
    let m = compute_mask(AffinityMode::PcoreOnly, None, &topo(true)).unwrap();
    assert_eq!(m, 0b0000_1111);
}

#[test]
fn ccd0_selects_ccd_zero_cores() {
    let m = compute_mask(AffinityMode::Ccd0, None, &topo(true)).unwrap();
    assert_eq!(m, 0b0000_1111);
}

#[test]
fn explicit_mask_parses_hex() {
    let m = compute_mask(AffinityMode::ExplicitMask, Some("0x00000004"), &topo(true)).unwrap();
    assert_eq!(m, 4);
}

#[test]
fn rejects_zero_and_full_masks() {
    assert!(compute_mask(AffinityMode::ExplicitMask, Some("0x0"), &topo(false)).is_err());
    assert!(compute_mask(AffinityMode::ExplicitMask, Some("0xF"), &topo(false)).is_err());
}

#[test]
fn explicit_mask_without_a_value_or_with_bad_hex_is_an_error() {
    assert!(compute_mask(AffinityMode::ExplicitMask, None, &topo(false)).is_err());
    assert!(compute_mask(AffinityMode::ExplicitMask, Some("0xZZ"), &topo(false)).is_err());
    assert_eq!(compute_mask(AffinityMode::ExplicitMask, Some("6"), &topo(false)).unwrap(), 6);
}

#[test]
fn a_multi_group_topology_is_refused() {
    let mut t = topo(false);
    t.group_count = 2;
    assert!(compute_mask(AffinityMode::PcoreOnly, None, &t).is_err());
}

#[test]
fn a_mask_outside_the_topologys_processors_selects_zero_cores() {
    let e = compute_mask(AffinityMode::ExplicitMask, Some("0x100"), &topo(true)).unwrap_err();
    assert_eq!(e.message(), "affinity mask selects zero cores");
    let e = compute_mask(AffinityMode::ExplicitMask, Some("0x1FF"), &topo(true)).unwrap_err();
    assert_eq!(e.message(), "affinity mask selects all cores (no-op)");
    assert_eq!(compute_mask(AffinityMode::ExplicitMask, Some("0x101"), &topo(true)).unwrap(), 0x101);
}
