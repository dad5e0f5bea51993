use liteparse_c::check::LiteParseRect;
use liteparse_c::color::{argb_from_hex, hex_from_argb, optional_color};
use liteparse_c::projected::RegionArrays;
use liteparse_c::region::{CutAxis, PackedRegions, Region, RegionKind, LITEPARSE_NO_PARENT};

#[test]
fn argb_round_trips_core_hex_strings() {
    assert_eq!(argb_from_hex("ff1a2b3c"), Some(0xff1a_2b3c));
    assert_eq!(hex_from_argb(0x0012_abcd), "0012abcd");
    assert_eq!(
        argb_from_hex(&hex_from_argb(0x8000_0001)),
        Some(0x8000_0001)
    );
    assert_eq!(argb_from_hex("+1234567"), None);
    assert_eq!(argb_from_hex("FF1A2B3C"), Some(0xff1a_2b3c));
    assert_eq!(argb_from_hex("abc"), None);
}

#[test]
fn optional_color_flags_absent_and_unparsable_values() {
    assert_eq!(optional_color(Some("ff112233")), (0xff11_2233, true));
    assert_eq!(optional_color(Some("zz112233")), (0, false));
    assert_eq!(optional_color(None), (0, false));
}

#[test]
fn every_argb_value_survives_hex() {
    for value in [0u32, 1, 0xffff_ffff, 0x0a0b_0c0d, 0xdead_beef] {
        assert_eq!(argb_from_hex(&hex_from_argb(value)), Some(value));
    }
}

fn unit() -> LiteParseRect {
    LiteParseRect {
        x: 0f32.to_bits(),
        y: 0f32.to_bits(),
        width: 1f32.to_bits(),
        height: 1f32.to_bits(),
    }
}

fn leaf(items: Vec<usize>) -> Region<LiteParseRect> {
    Region {
        bbox: unit(),
        kind: RegionKind::Leaf {
            item_indices: items,
        },
    }
}

fn split(children: Vec<Region<LiteParseRect>>) -> Region<LiteParseRect> {
    Region {
        bbox: unit(),
        kind: RegionKind::Split {
            axis: CutAxis::Vertical,
            children,
        },
    }
}

#[test]
fn pack_nested_region_children_are_contiguous() {
    // root -> [a -> [a1, a2], b]
    let tree = split(vec![
        split(vec![leaf(vec![0]), leaf(vec![1])]),
        leaf(vec![2]),
    ]);
    let mut packed = PackedRegions::new();
    packed.region(&tree, LITEPARSE_NO_PARENT);

    let children = |node: usize| {
        let region = &packed.regions[node];
        let start = region.child_offset as usize;
        packed.region_children[start..start + region.child_count as usize].to_vec()
    };
    assert_eq!(children(0), [1, 4]);
    assert_eq!(children(1), [2, 3]);
    assert!(children(2).is_empty());
    for (index, region) in packed.regions.iter().enumerate().skip(1) {
        assert!(children(region.parent_index as usize).contains(&(index as u32)));
    }
}

#[test]
fn views_nested_region_children_are_contiguous() {
    // root -> [a -> [a1, a2], b]
    let tree = split(vec![
        split(vec![leaf(vec![0]), leaf(vec![1])]),
        leaf(vec![2]),
    ]);
    let mut packed = RegionArrays {
        regions: Vec::new(),
        region_items: Vec::new(),
        region_children: Vec::new(),
    };
    packed.flatten_region(&tree, liteparse_c::projected::LITEPARSE_PROJECTED_REGION_NO_PARENT);

    let children = |node: usize| {
        let region = &packed.regions[node];
        let start = region.child_offset as usize;
        packed.region_children[start..start + region.child_count as usize].to_vec()
    };
    assert_eq!(children(0), [1, 4]);
    assert_eq!(children(1), [2, 3]);
    assert!(children(2).is_empty());
    for (index, region) in packed.regions.iter().enumerate().skip(1) {
        assert!(children(region.parent_index as usize).contains(&(index as u64)));
    }
}
