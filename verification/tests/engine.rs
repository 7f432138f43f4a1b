//! End-to-end pack behaviour: parsing, merging, inheritance, the
//! enable cascade, activation, identifier collisions and the texture
//! mark-and-sweep.

use std::io::Cursor;
use std::io::Write;
use taimi_markers::category::get_index_of;
use taimi_markers::geom::{Frustum, Plane, Vec3M};
use taimi_markers::collection::PackCollection;
use taimi_markers::pack::Pack;
use taimi_markers::source::PackSource;

fn png_bytes() -> Vec<u8> {
    let img = image::RgbaImage::from_pixel(2, 2, image::Rgba([255, 0, 0, 255]));
    let mut buf = Vec::new();
    img.write_to(&mut Cursor::new(&mut buf), image::ImageFormat::Png).unwrap();
    buf
}

fn trail_bytes(map_id: i32, pts: &[(f32, f32, f32)]) -> Vec<u8> {
    let mut b = Vec::new();
    b.extend_from_slice(&0u32.to_le_bytes());
    b.extend_from_slice(&(map_id as u32).to_le_bytes());
    for (x, y, z) in pts {
        b.extend_from_slice(&x.to_le_bytes());
        b.extend_from_slice(&y.to_le_bytes());
        b.extend_from_slice(&z.to_le_bytes());
    }
    b
}

fn source_with(files: Vec<(&str, Vec<u8>)>) -> PackSource {
    let mut s = PackSource::new();
    for (path, bytes) in files {
        s.add_file(path.to_string(), bytes);
    }
    s
}

const ROUND_TRIP_XML: &str = r#"<OverlayData>
  <MarkerCategory name="A" DefaultToggle="true" IconSize="2">
    <MarkerCategory name="B" DefaultToggle="true"/>
  </MarkerCategory>
  <POIs>
    <POI type="A.B" MapID="5" xpos="1" ypos="2" zpos="3" iconFile="icon.png"/>
  </POIs>
</OverlayData>"#;

#[test]
fn round_trip_toggle_cascade() {
    let source = source_with(vec![("markers.xml", ROUND_TRIP_XML.as_bytes().to_vec()), (
        "icon.png",
        png_bytes(),
    )]);
    let mut pack = Pack::load("demo".to_string(), source).unwrap();
    let idx_a = get_index_of(&pack.defs.categories, "A").unwrap();
    let idx_ab = get_index_of(&pack.defs.categories, "A.B").unwrap();
    assert!(pack.enabled_categories[idx_ab]);

    let mut entities = Vec::new();
    pack.prepare_new_map(0, 5, &mut entities);
    assert_eq!(pack.active_pois.len(), 1);
    assert_eq!(entities.len(), 1);
    assert!(!pack.active_pois[0].filtered);

    // disabling the parent cascades to the child and its POI
    pack.user_category_state[idx_a] = false;
    pack.recompute_enabled();
    assert!(!pack.enabled_categories[idx_ab]);
    assert!(pack.active_pois[0].filtered);

    // and enabling it again restores visibility
    pack.user_category_state[idx_a] = true;
    pack.recompute_enabled();
    assert!(pack.enabled_categories[idx_ab]);
    assert!(!pack.active_pois[0].filtered);
}

#[test]
fn own_user_bit_still_counts() {
    let source = source_with(vec![("markers.xml", ROUND_TRIP_XML.as_bytes().to_vec()), (
        "icon.png",
        png_bytes(),
    )]);
    let mut pack = Pack::load("demo".to_string(), source).unwrap();
    let idx_ab = get_index_of(&pack.defs.categories, "A.B").unwrap();
    pack.user_category_state[idx_ab] = false;
    pack.recompute_enabled();
    assert!(!pack.enabled_categories[idx_ab]);
}

#[test]
fn skip_on_error_keeps_the_good_poi() {
    let xml = r#"<OverlayData>
  <MarkerCategory name="A"/>
  <POIs>
    <POI type="A" MapID="5" xpos="1" ypos="2" zpos="3"/>
    <POI type="A" xpos="1" ypos="2" zpos="3"/>
  </POIs>
</OverlayData>"#;
    let source = source_with(vec![("markers.xml", xml.as_bytes().to_vec())]);
    let pack = Pack::load("demo".to_string(), source).unwrap();
    assert_eq!(pack.defs.pois.len(), 1);
}

#[test]
fn unparseable_numbers_poison_only_that_poi() {
    let xml = r#"<OverlayData>
  <MarkerCategory name="A"/>
  <POIs>
    <POI type="A" MapID="nope" xpos="1" ypos="2" zpos="3"/>
    <POI type="A" MapID="5" xpos="1" ypos="2" zpos="3"/>
  </POIs>
</OverlayData>"#;
    let source = source_with(vec![("markers.xml", xml.as_bytes().to_vec())]);
    let pack = Pack::load("demo".to_string(), source).unwrap();
    assert_eq!(pack.defs.pois.len(), 1);
    assert_eq!(pack.defs.pois[0].map_id, 5);
}

#[test]
fn duplicate_categories_merge_and_remerge_idempotently() {
    let xml_a = r#"<OverlayData>
  <MarkerCategory name="A" IconSize="2">
    <MarkerCategory name="B"/>
  </MarkerCategory>
</OverlayData>"#;
    let xml_b = r#"<OverlayData>
  <MarkerCategory name="A" Alpha="0.5">
    <MarkerCategory name="C"/>
  </MarkerCategory>
</OverlayData>"#;
    let source = source_with(vec![
        ("a.xml", xml_a.as_bytes().to_vec()),
        ("b.xml", xml_b.as_bytes().to_vec()),
        ("c.xml", xml_b.as_bytes().to_vec()),
    ]);
    let pack = Pack::load("demo".to_string(), source).unwrap();
    // one entry for A, with the union of both definitions
    let idx_a = get_index_of(&pack.defs.categories, "A").unwrap();
    let a = &pack.defs.categories[idx_a];
    assert_eq!(a.marker_attributes.icon_size, Some(2000));
    assert_eq!(a.marker_attributes.alpha, Some(500));
    assert_eq!(a.sub_categories.len(), 2);
    assert!(get_index_of(&pack.defs.categories, "A.B").is_some());
    assert!(get_index_of(&pack.defs.categories, "A.C").is_some());
    // parsing the identical definition a third time changed nothing
    assert_eq!(pack.defs.categories.len(), 3);
}

#[test]
fn attributes_inherit_to_children_and_markers() {
    let xml = r#"<OverlayData>
  <MarkerCategory name="A" IconSize="2" Alpha="0.5">
    <MarkerCategory name="B" Alpha="0.75"/>
  </MarkerCategory>
  <POIs>
    <POI type="A.B" MapID="5" xpos="1" ypos="2" zpos="3"/>
  </POIs>
</OverlayData>"#;
    let source = source_with(vec![("markers.xml", xml.as_bytes().to_vec())]);
    let pack = Pack::load("demo".to_string(), source).unwrap();
    let idx_ab = get_index_of(&pack.defs.categories, "A.B").unwrap();
    let ab = &pack.defs.categories[idx_ab];
    // unset fields take the nearest ancestor's value, set ones win
    assert_eq!(ab.marker_attributes.icon_size, Some(2000));
    assert_eq!(ab.marker_attributes.alpha, Some(750));
    // the POI takes its category's resolved bundle
    assert_eq!(pack.defs.pois[0].attributes.icon_size, Some(2000));
    assert_eq!(pack.defs.pois[0].attributes.alpha, Some(750));
}

#[test]
fn colliding_trail_identifiers_both_survive() {
    let xml = r#"<OverlayData>
  <MarkerCategory name="A"/>
  <POIs>
    <Trail type="A" GUID="dup" trailData="one.trl" texture="tex.png"/>
    <Trail type="A" GUID="dup" trailData="two.trl" texture="tex.png"/>
  </POIs>
</OverlayData>"#;
    let source = source_with(vec![
        ("markers.xml", xml.as_bytes().to_vec()),
        ("one.trl", trail_bytes(5, &[(0.0, 0.0, 0.0), (1.0, 0.0, 0.0)])),
        ("two.trl", trail_bytes(5, &[(2.0, 0.0, 0.0), (3.0, 0.0, 0.0)])),
        ("tex.png", png_bytes()),
    ]);
    let mut pack = Pack::load("demo".to_string(), source).unwrap();
    assert_eq!(pack.defs.trails.len(), 2);
    assert_eq!(pack.defs.trails[0].guid, pack.defs.trails[1].guid);
    let mut entities = Vec::new();
    pack.prepare_new_map(0, 5, &mut entities);
    assert_eq!(pack.active_trails.len(), 2);
    assert_ne!(pack.active_trail_ids[0], pack.active_trail_ids[1]);
    // only the colliding entity is redrawn: the first keeps its token
    assert_eq!(pack.active_trail_ids[0], pack.defs.trails[0].guid);
}

#[test]
fn distinct_tokens_keep_their_identifiers() {
    let xml = r#"<OverlayData>
  <MarkerCategory name="A"/>
  <POIs>
    <Trail type="A" GUID="one" trailData="one.trl" texture="tex.png"/>
    <Trail type="A" GUID="two" trailData="two.trl" texture="tex.png"/>
  </POIs>
</OverlayData>"#;
    let source = source_with(vec![
        ("markers.xml", xml.as_bytes().to_vec()),
        ("one.trl", trail_bytes(5, &[(0.0, 0.0, 0.0), (1.0, 0.0, 0.0)])),
        ("two.trl", trail_bytes(5, &[(2.0, 0.0, 0.0), (3.0, 0.0, 0.0)])),
        ("tex.png", png_bytes()),
    ]);
    let mut pack = Pack::load("demo".to_string(), source).unwrap();
    let mut entities = Vec::new();
    pack.prepare_new_map(0, 5, &mut entities);
    assert_eq!(pack.active_trail_ids[0], taimi_markers::guid::taco_token_to_guid("one"));
    assert_eq!(pack.active_trail_ids[1], taimi_markers::guid::taco_token_to_guid("two"));
}

#[test]
fn mark_and_sweep_releases_only_unreferenced_textures() {
    let source = source_with(vec![("markers.xml", ROUND_TRIP_XML.as_bytes().to_vec()), (
        "icon.png",
        png_bytes(),
    )]);
    let mut pack = Pack::load("demo".to_string(), source).unwrap();
    let mut entities = Vec::new();
    pack.prepare_new_map(0, 5, &mut entities);
    assert_eq!(pack.active_pois.len(), 1);
    let icon = pack.active_pois[0].icon.0;
    // the surviving POI's icon is resident after the sweep
    assert!(pack.textures.loaded[icon]);
    assert!(pack.textures.textures[icon].texture.is_some());

    // a map with no entities leaves the icon unreferenced: it is swept
    let mut entities2 = Vec::new();
    pack.prepare_new_map(0, 6, &mut entities2);
    assert_eq!(pack.active_pois.len(), 0);
    assert!(!pack.textures.loaded[icon]);
    assert!(pack.textures.textures[icon].texture.is_none());
}

#[test]
fn missing_icon_skips_only_that_poi() {
    let xml = r#"<OverlayData>
  <MarkerCategory name="A"/>
  <POIs>
    <POI type="A" MapID="5" xpos="1" ypos="2" zpos="3" iconFile="gone.png"/>
    <POI type="A" MapID="5" xpos="4" ypos="5" zpos="6" iconFile="icon.png"/>
  </POIs>
</OverlayData>"#;
    let source = source_with(vec![("markers.xml", xml.as_bytes().to_vec()), (
        "icon.png",
        png_bytes(),
    )]);
    let mut pack = Pack::load("demo".to_string(), source).unwrap();
    assert_eq!(pack.defs.pois.len(), 2);
    let mut entities = Vec::new();
    pack.prepare_new_map(0, 5, &mut entities);
    assert_eq!(pack.active_pois.len(), 1);
    assert_eq!(pack.active_pois[0].poi_idx, 1);
}

#[test]
fn bad_nesting_fails_the_whole_pack() {
    let xml = r#"<OverlayData><POIs><MarkerCategory name="A"/></POIs></OverlayData>"#;
    let mut collection = PackCollection::new();
    collection.load_pack(
        "broken".to_string(),
        source_with(vec![("markers.xml", xml.as_bytes().to_vec())]),
    );
    assert_eq!(collection.loaded_packs.len(), 0);
    assert_eq!(collection.unloaded_packs.len(), 1);
}

#[test]
fn malformed_xml_fails_the_whole_pack() {
    let xml = "<OverlayData><POIs></OverlayData>";
    let mut collection = PackCollection::new();
    collection.load_pack(
        "broken".to_string(),
        source_with(vec![("markers.xml", xml.as_bytes().to_vec())]),
    );
    assert_eq!(collection.unloaded_packs.len(), 1);
}

#[test]
fn copyable_pois_follow_the_filter() {
    let xml = r#"<OverlayData>
  <MarkerCategory name="A"/>
  <POIs>
    <POI type="A" MapID="5" xpos="1" ypos="2" zpos="3" iconFile="icon.png" copy="hello"/>
  </POIs>
</OverlayData>"#;
    let source = source_with(vec![("markers.xml", xml.as_bytes().to_vec()), (
        "icon.png",
        png_bytes(),
    )]);
    let mut pack = Pack::load("demo".to_string(), source).unwrap();
    let mut entities = Vec::new();
    pack.prepare_new_map(0, 5, &mut entities);
    let copyable = pack.get_copyable_pois();
    assert_eq!(copyable.len(), 1);
    assert_eq!(copyable[0].attributes.copy_value.as_deref(), Some("hello"));
    let idx_a = get_index_of(&pack.defs.categories, "A").unwrap();
    pack.user_category_state[idx_a] = false;
    pack.recompute_enabled();
    assert_eq!(pack.get_copyable_pois().len(), 0);
}

#[test]
fn collection_activates_and_culls() {
    let source = source_with(vec![("markers.xml", ROUND_TRIP_XML.as_bytes().to_vec()), (
        "icon.png",
        png_bytes(),
    )]);
    let mut collection = PackCollection::new();
    collection.load_pack("demo".to_string(), source);
    assert_eq!(collection.loaded_packs.len(), 1);
    collection.prepare_new_map(5);
    assert_eq!(collection.render_list.entities.len(), 1);

    // an all-accepting frustum keeps the entity, a rejecting one culls it
    let keep = Frustum::new(vec![Plane { a: 0, b: 0, c: 0, d: 1 }]).unwrap();
    let cam = Vec3M { x: 0, y: 0, z: 0 };
    assert_eq!(collection.get_entities_for_drawing(cam, cam, &keep).len(), 1);
    let cull = Frustum::new(vec![Plane { a: 0, b: 0, c: 0, d: -1 }]).unwrap();
    assert_eq!(collection.get_entities_for_drawing(cam, cam, &cull).len(), 0);
}

#[test]
fn unknown_attributes_are_ignored() {
    let xml = r#"<OverlayData>
  <MarkerCategory name="A" bh-DisplayName="Alpha" mysteryAttr="7"/>
  <POIs>
    <POI type="A" MapID="5" xpos="1" ypos="2" zpos="3" mysteryAttr="7"/>
  </POIs>
</OverlayData>"#;
    let source = source_with(vec![("markers.xml", xml.as_bytes().to_vec())]);
    let pack = Pack::load("demo".to_string(), source).unwrap();
    assert_eq!(pack.defs.pois.len(), 1);
    let idx_a = get_index_of(&pack.defs.categories, "A").unwrap();
    assert_eq!(pack.defs.categories[idx_a].display_name, "Alpha");
}

#[test]
fn archives_load_like_directories() {
    let mut buf = Cursor::new(Vec::new());
    {
        let mut writer = zip::ZipWriter::new(&mut buf);
        let opts = zip::write::SimpleFileOptions::default();
        writer.start_file("markers.xml", opts).unwrap();
        writer.write_all(ROUND_TRIP_XML.as_bytes()).unwrap();
        writer.start_file("icon.png", opts).unwrap();
        writer.write_all(&png_bytes()).unwrap();
        writer.finish().unwrap();
    }
    let bytes = buf.into_inner();
    let source = taimi_markers::archive::source_from_archive(&bytes).unwrap();
    let mut collection = PackCollection::new();
    collection.load_pack("archived".to_string(), source);
    assert_eq!(collection.loaded_packs.len(), 1);
    collection.prepare_new_map(5);
    assert_eq!(collection.render_list.entities.len(), 1);
    // junk bytes are not a readable archive
    assert!(taimi_markers::archive::source_from_archive(&vec![1, 2, 3]).is_none());
}

#[test]
fn trail_sections_sit_at_their_bookmarks() {
    let xml = r#"<OverlayData>
  <MarkerCategory name="A"/>
  <POIs>
    <Trail type="A" GUID="one" trailData="one.trl" texture="tex.png"/>
    <Trail type="A" GUID="two" trailData="two.trl" texture="tex.png"/>
    <POI type="A" MapID="5" xpos="0" ypos="0" zpos="0" iconFile="tex.png"/>
  </POIs>
</OverlayData>"#;
    let source = source_with(vec![
        ("markers.xml", xml.as_bytes().to_vec()),
        ("one.trl", trail_bytes(5, &[(0.0, 0.0, 0.0), (1.0, 0.0, 0.0)])),
        ("two.trl", trail_bytes(5, &[(2.0, 0.0, 0.0), (3.0, 0.0, 0.0)])),
        ("tex.png", png_bytes()),
    ]);
    let mut pack = Pack::load("demo".to_string(), source).unwrap();
    let mut entities = Vec::new();
    pack.prepare_new_map(3, 5, &mut entities);
    // bookmarks chain from the pack's first slot through the sections
    let mut at = 0usize;
    for (t, trail) in pack.active_trails.iter().enumerate() {
        assert_eq!(trail.render_bookmark, at);
        for (s, bounds) in trail.section_bounds.iter().enumerate() {
            let e = &entities[at + s];
            assert_eq!(e.bounds, *bounds);
            assert!(!e.draw_ordered);
            assert_eq!(
                e.render_id,
                taimi_markers::render_list::RenderId::TrailSection {
                    pack_idx: 3,
                    trail_idx: t,
                    section: s,
                }
            );
        }
        at += trail.section_bounds.len();
    }
    // the poi phase begins exactly where the sections end
    assert_eq!(pack.poi_bookmark, at);
    assert!(entities.len() > at);
}
