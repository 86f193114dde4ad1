use motion_k::geo::map_generator::{style_for, Tag};
use motion_k::geo::style::{
    AreaStyleSettings, Category, MapStyleSettings, StyleTable, WayStyleSettings, RGB,
};

#[test]
fn default_way_style_of_motorway() {
    let settings = MapStyleSettings::default();
    let style = settings.way.get("motorway").unwrap();
    assert!(style.is_enabled);
    assert_eq!(f32::from_bits(style.width_bits), 6.0);
    assert_eq!(style.color, RGB { r: 180, g: 180, b: 180 });
    assert_eq!(style.render_threshold_bits.map(f32::from_bits), Some(6.0));
}

#[test]
fn default_way_style_of_stream() {
    let settings = MapStyleSettings::default();
    let style = settings.way.get("stream").unwrap();
    assert_eq!(f32::from_bits(style.width_bits), 1.0);
    assert_eq!(style.color, RGB { r: 22, g: 122, b: 129 });
    assert_eq!(style.render_threshold_bits.map(f32::from_bits), Some(7.0));
}

#[test]
fn default_area_and_building_styles() {
    let settings = MapStyleSettings::default();
    let forest = settings.area.get("forest").unwrap();
    assert_eq!(forest.color, RGB { r: 82, g: 119, b: 70 });
    assert_eq!(forest.render_threshold_bits, None);
    let house = settings.building.get("house").unwrap();
    assert_eq!(house.color, RGB { r: 100, g: 100, b: 100 });
    assert_eq!(house.render_threshold_bits.map(f32::from_bits), Some(7.0));
    assert!(settings.building.get("forest").is_none());
}

#[test]
fn residential_is_both_a_road_and_an_area() {
    let settings = MapStyleSettings::default();
    assert_eq!(f32::from_bits(settings.way.get("residential").unwrap().width_bits), 2.0);
    assert_eq!(settings.area.get("residential").unwrap().color, RGB { r: 160, g: 142, b: 134 });
}

#[test]
fn map_tag_to_category_per_key() {
    let settings = MapStyleSettings::default();
    let cases = [
        ("highway", Category::Path),
        ("man_made", Category::Path),
        ("natural", Category::Area),
        ("landuse", Category::Area),
        ("amenity", Category::Area),
        ("leisure", Category::Area),
        ("building", Category::Building),
        ("waterway", Category::Water),
    ];
    for (key, category) in cases {
        let tag = settings.map_tag_to_category(key, "some value").unwrap();
        assert_eq!(tag, Tag::new(category, String::from("some value")));
    }
    assert!(settings.map_tag_to_category("name", "x").is_none());
    assert!(settings.map_tag_to_category("Highway", "x").is_none());
    assert!(settings.map_tag_to_category("", "x").is_none());
}

#[test]
fn tag_filters() {
    let settings = MapStyleSettings::default();
    assert!(settings.filter_by_tag("highway"));
    assert!(settings.filter_by_tag("building"));
    assert!(!settings.filter_by_tag("name"));
    assert!(settings.filter_by_area_tag("landuse"));
    assert!(settings.filter_by_area_tag("leisure"));
    assert!(!settings.filter_by_area_tag("highway"));
    assert!(!settings.filter_by_area_tag("building"));
    assert!(!settings.filter_by_area_tag("name"));
}

#[test]
fn value_filter_with_default_styles() {
    let settings = MapStyleSettings::default();
    assert!(settings.filter_by_value("motorway"));
    assert!(settings.filter_by_value("forest"));
    assert!(settings.filter_by_value("garage"));
    assert!(!settings.filter_by_value("footway"));
    assert!(!settings.filter_by_value(""));
}

#[test]
fn value_filter_honours_disabled_styles() {
    let mut settings = MapStyleSettings::default();
    let mut off = WayStyleSettings::new(1f32.to_bits(), RGB { r: 0, g: 0, b: 0 }, None);
    off.is_enabled = false;
    settings.way.insert(String::from("residential"), off);
    // The way table is asked first, so its disabled style wins over the area's.
    assert!(!settings.filter_by_value("residential"));
    let mut off_area = AreaStyleSettings::new(RGB { r: 1, g: 2, b: 3 });
    off_area.is_enabled = false;
    settings.area.insert(String::from("forest"), off_area);
    assert!(!settings.filter_by_value("forest"));
    assert!(settings.filter_by_value("water"));
}

#[test]
fn style_table_insert_replaces() {
    let mut table = StyleTable::new();
    assert!(!table.contains_key("a"));
    table.insert(String::from("a"), AreaStyleSettings::new(RGB { r: 1, g: 1, b: 1 }));
    table.insert(String::from("b"), AreaStyleSettings::new(RGB { r: 2, g: 2, b: 2 }));
    table.insert(String::from("a"), AreaStyleSettings::new_wt(RGB { r: 3, g: 3, b: 3 }, 9f32.to_bits()));
    assert!(table.contains_key("a"));
    assert!(table.contains_key("b"));
    assert!(!table.contains_key("c"));
    let a = table.get("a").unwrap();
    assert_eq!(a.color, RGB { r: 3, g: 3, b: 3 });
    assert_eq!(a.render_threshold_bits, Some(9f32.to_bits()));
    assert_eq!(table.get("b").unwrap().color, RGB { r: 2, g: 2, b: 2 });
}

#[test]
fn style_constructors() {
    let way = WayStyleSettings::new(2.5f32.to_bits(), RGB { r: 1, g: 2, b: 3 }, Some(4f32.to_bits()));
    assert!(way.is_enabled);
    assert_eq!(f32::from_bits(way.width_bits), 2.5);
    let area = AreaStyleSettings::new(RGB { r: 4, g: 5, b: 6 });
    assert!(area.is_enabled);
    assert_eq!(area.render_threshold_bits, None);
    let building = AreaStyleSettings::new_wt(RGB { r: 4, g: 5, b: 6 }, 7f32.to_bits());
    assert_eq!(building.render_threshold_bits, Some(7f32.to_bits()));
}

#[test]
fn style_for_matches_category_and_value() {
    let settings = MapStyleSettings::default();
    let forest = Some(Tag::new(Category::Area, String::from("forest")));
    assert_eq!(
        style_for(&settings.area, Category::Area, &forest).unwrap().color,
        RGB { r: 82, g: 119, b: 70 }
    );
    assert!(style_for(&settings.area, Category::Building, &forest).is_none());
    let unknown = Some(Tag::new(Category::Area, String::from("desert")));
    assert!(style_for(&settings.area, Category::Area, &unknown).is_none());
    assert!(style_for(&settings.area, Category::Area, &None).is_none());
}

#[test]
fn tag_equality() {
    let a = Tag::new(Category::Area, String::from("forest"));
    assert!(a.equals(&Tag::new(Category::Area, String::from("forest"))));
    assert!(!a.equals(&Tag::new(Category::Water, String::from("forest"))));
    assert!(!a.equals(&Tag::new(Category::Area, String::from("wood"))));
    assert_eq!(a.duplicate(), a);
}
