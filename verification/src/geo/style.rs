use vstd::prelude::*;
use crate::geo::map_generator::Tag;

verus! {

/// An 8-bit-per-channel colour.
#[derive(Clone, Copy, PartialEq, Eq, Structural, Debug)]
pub struct RGB {
    pub r: u8,
    pub g: u8,
    pub b: u8,
}

/// The kind of map feature a tag belongs to.
#[derive(Clone, Copy, PartialEq, Eq, Structural, Debug)]
pub enum Category {
    NotSpecified,
    Point,
    Path,
    Water,
    Area,
    Building,
}

/// Trusted: calls `<str as PartialEq>::eq`, which std documents as
/// comparing the two strings' contents; the contract claims that the result
/// is whether the two strings hold the same characters.
#[verifier::external_body]
pub(crate) fn str_eq(a: &str, b: &str) -> (r: bool)
    ensures
        r == (a@ == b@),
{
    a == b
}

/// A table of styles keyed by tag value, each key at most once.
pub struct StyleTable<S> {
    entries: Vec<(String, S)>,
}

impl<S> StyleTable<S> {
    #[verifier::type_invariant]
    spec fn keys_unique(self) -> bool {
        forall|i: int, j: int|
            0 <= i < self.entries@.len() && 0 <= j < self.entries@.len() && i != j
                ==> #[trigger] self.entries@[i].0@ != #[trigger] self.entries@[j].0@
    }

    /// Whether `key` is one of the table's keys.
    pub closed spec fn has(self, key: Seq<char>) -> bool {
        exists|i: int| 0 <= i < self.entries@.len() && #[trigger] self.entries@[i].0@ == key
    }

    /// The position of `key` in the table.
    closed spec fn position(self, key: Seq<char>) -> int {
        choose|i: int| 0 <= i < self.entries@.len() && #[trigger] self.entries@[i].0@ == key
    }
}

impl<S> View for StyleTable<S> {
    type V = Map<Seq<char>, S>;

    closed spec fn view(&self) -> Map<Seq<char>, S> {
        Map::new(|k: Seq<char>| self.has(k), |k: Seq<char>| self.entries@[self.position(k)].1)
    }
}

impl<S> StyleTable<S> {
    proof fn lemma_position(self, i: int)
        requires
            self.keys_unique(),
            0 <= i < self.entries@.len(),
        ensures
            self.has(self.entries@[i].0@),
            self.position(self.entries@[i].0@) == i,
            self@.contains_key(self.entries@[i].0@),
            self@[self.entries@[i].0@] == self.entries@[i].1,
    {
        let k = self.entries@[i].0@;
        assert(self.entries@[i].0@ == k);
        let p = self.position(k);
        if p != i {
            assert(self.entries@[p].0@ != self.entries@[i].0@);
        }
    }

    /// An empty table.
    pub fn new() -> (t: StyleTable<S>)
        ensures
            t@ == Map::<Seq<char>, S>::empty(),
    {
        let t = StyleTable { entries: Vec::new() };
        assert(t@ =~= Map::<Seq<char>, S>::empty());
        t
    }

    /// The position of `key`, if the table holds it.
    fn find(&self, key: &str) -> (r: Option<usize>)
        ensures
            match r {
                Some(i) => i < self.entries@.len() && self.entries@[i as int].0@ == key@,
                None => !self.has(key@),
            },
    {
        let n = self.entries.len();
        for i in 0..n
            invariant
                n == self.entries@.len(),
                forall|j: int| 0 <= j < i ==> self.entries@[j].0@ != key@,
        {
            if str_eq(self.entries[i].0.as_str(), key) {
                return Some(i);
            }
        }
        None
    }

    /// Whether the table holds a style for `key`.
    pub fn contains_key(&self, key: &str) -> (r: bool)
        ensures
            r == self@.contains_key(key@),
    {
        self.find(key).is_some()
    }

    /// The style stored for `key`, if any.
    pub fn get(&self, key: &str) -> (r: Option<&S>)
        ensures
            match r {
                Some(v) => self@.contains_key(key@) && *v == self@[key@],
                None => !self@.contains_key(key@),
            },
    {
        proof {
            use_type_invariant(self);
        }
        match self.find(key) {
            Some(i) => {
                proof {
                    self.lemma_position(i as int);
                }
                Some(&self.entries[i].1)
            },
            None => None,
        }
    }

    /// Stores `value` under `key`, replacing what was stored there before.
    pub fn insert(&mut self, key: String, value: S)
        ensures
            final(self)@ == old(self)@.insert(key@, value),
    {
        proof {
            use_type_invariant(&*self);
        }
        let ghost old_table = *self;
        let found = self.find(key.as_str());
        match found {
            Some(i) => {
                let mut entries: Vec<(String, S)> = Vec::new();
                std::mem::swap(&mut entries, &mut self.entries);
                entries.set(i, (key, value));
                self.entries = entries;
            },
            None => {
                let mut entries: Vec<(String, S)> = Vec::new();
                std::mem::swap(&mut entries, &mut self.entries);
                entries.push((key, value));
                self.entries = entries;
            },
        }
        proof {
            let new_table = *self;
            assert forall|k: Seq<char>| #[trigger] new_table.has(k) == (old_table.has(k) || k == key@) by {
                if new_table.has(k) {
                    let j = choose|j: int| 0 <= j < new_table.entries@.len() && #[trigger] new_table.entries@[j].0@ == k;
                    if k != key@ {
                        assert(old_table.entries@[j].0@ == k);
                    }
                }
                if old_table.has(k) && k != key@ {
                    let j = choose|j: int| 0 <= j < old_table.entries@.len() && #[trigger] old_table.entries@[j].0@ == k;
                    assert(new_table.entries@[j].0@ == k);
                }
                if k == key@ {
                    let j = match found { Some(i) => i as int, None => old_table.entries@.len() as int };
                    assert(new_table.entries@[j].0@ == k);
                }
            }
            assert forall|k: Seq<char>| new_table.has(k) implies #[trigger] new_table@[k] == old_table@.insert(key@, value)[k] by {
                let j = new_table.position(k);
                new_table.lemma_position(j);
                if k != key@ {
                    assert(old_table.entries@[j].0@ == k);
                    old_table.lemma_position(j);
                }
            }
            assert(new_table@ =~= old_table@.insert(key@, value));
        }
    }
}

/// How a way (road, path, stream) is drawn. Sizes are `f32` values kept as
/// their IEEE-754 bit patterns (`f32::to_bits`).
#[derive(Clone, Copy, Debug, PartialEq)]
pub struct WayStyleSettings {
    pub is_enabled: bool,
    /// Stroke width.
    pub width_bits: u32,
    pub color: RGB,
    /// The map scale from which on the way is drawn, if any.
    pub render_threshold_bits: Option<u32>,
}

/// How an area (land use, water, building) is filled.
#[derive(Clone, Copy, Debug, PartialEq)]
pub struct AreaStyleSettings {
    pub is_enabled: bool,
    pub color: RGB,
    /// The map scale from which on the area is drawn, if any, as the bit
    /// pattern of an `f32`.
    pub render_threshold_bits: Option<u32>,
}

impl WayStyleSettings {
    /// An enabled way style.
    pub fn new(width_bits: u32, color: RGB, render_threshold_bits: Option<u32>) -> (s: WayStyleSettings)
        ensures
            s == (WayStyleSettings { is_enabled: true, width_bits, color, render_threshold_bits }),
    {
        WayStyleSettings { is_enabled: true, width_bits, color, render_threshold_bits }
    }
}

impl AreaStyleSettings {
    /// An enabled area style that is drawn at every scale.
    pub fn new(color: RGB) -> (s: AreaStyleSettings)
        ensures
            s == (AreaStyleSettings { is_enabled: true, color, render_threshold_bits: None }),
    {
        AreaStyleSettings { is_enabled: true, color, render_threshold_bits: None }
    }

    /// An enabled area style that is drawn from the scale `threshold_bits` on.
    pub fn new_wt(color: RGB, threshold_bits: u32) -> (s: AreaStyleSettings)
        ensures
            s == (AreaStyleSettings { is_enabled: true, color, render_threshold_bits: Some(threshold_bits) }),
    {
        AreaStyleSettings { is_enabled: true, color, render_threshold_bits: Some(threshold_bits) }
    }
}

/// The styles of a map, keyed by tag value: ways, areas and buildings.
pub struct MapStyleSettings {
    pub way: StyleTable<WayStyleSettings>,
    pub area: StyleTable<AreaStyleSettings>,
    pub building: StyleTable<AreaStyleSettings>,
}

/// The category that an OSM tag key stands for, if the map knows the key.
pub open spec fn category_of_key(key: Seq<char>) -> Option<Category> {
    if key == "highway"@ || key == "man_made"@ {
        Some(Category::Path)
    } else if key == "natural"@ || key == "landuse"@ || key == "amenity"@ || key == "leisure"@ {
        Some(Category::Area)
    } else if key == "building"@ {
        Some(Category::Building)
    } else if key == "waterway"@ {
        Some(Category::Water)
    } else {
        None
    }
}

impl MapStyleSettings {
    /// Whether a tag value has an enabled style; the way table is asked
    /// first, then the area table, then the building table.
    pub open spec fn value_enabled(&self, value: Seq<char>) -> bool {
        if self.way@.contains_key(value) {
            self.way@[value].is_enabled
        } else if self.area@.contains_key(value) {
            self.area@[value].is_enabled
        } else if self.building@.contains_key(value) {
            self.building@[value].is_enabled
        } else {
            false
        }
    }

    /// Classifies an OSM tag: `Some` with the key's category and the value
    /// `content` when the key is one the map knows, `None` otherwise.
    pub fn map_tag_to_category(&self, tag: &str, content: &str) -> (r: Option<Tag>)
        ensures
            match category_of_key(tag@) {
                Some(c) => r is Some && r->0.category == c && r->0.value@ == content@,
                None => r is None,
            },
    {
        let category: Category;
        if str_eq(tag, "highway") {
            category = Category::Path;
        } else if str_eq(tag, "man_made") {
            category = Category::Path;
        } else if str_eq(tag, "natural") {
            category = Category::Area;
        } else if str_eq(tag, "landuse") {
            category = Category::Area;
        } else if str_eq(tag, "amenity") {
            category = Category::Area;
        } else if str_eq(tag, "leisure") {
            category = Category::Area;
        } else if str_eq(tag, "building") {
            category = Category::Building;
        } else if str_eq(tag, "waterway") {
            category = Category::Water;
        } else {
            return None;
        }
        Some(Tag::new(category, content.to_owned()))
    }

    /// Whether the map knows the tag key.
    pub fn filter_by_tag(&self, key: &str) -> (r: bool)
        ensures
            r == category_of_key(key@) is Some,
    {
        match self.map_tag_to_category(key, "") {
            None => false,
            Some(_) => true,
        }
    }

    /// Whether the map knows the tag key as one of an area.
    pub fn filter_by_area_tag(&self, key: &str) -> (r: bool)
        ensures
            r == (category_of_key(key@) == Some(Category::Area)),
    {
        match self.map_tag_to_category(key, "") {
            None => false,
            Some(category) => category.category == Category::Area,
        }
    }

    /// Whether the tag value has an enabled style.
    pub fn filter_by_value(&self, value: &str) -> (r: bool)
        ensures
            r == self.value_enabled(value@),
            self.way@.contains_key(value@) ==> r == self.way@[value@].is_enabled,
            !self.way@.contains_key(value@) && self.area@.contains_key(value@) ==> r
                == self.area@[value@].is_enabled,
            !self.way@.contains_key(value@) && !self.area@.contains_key(value@)
                && self.building@.contains_key(value@) ==> r == self.building@[value@].is_enabled,
            !self.way@.contains_key(value@) && !self.area@.contains_key(value@)
                && !self.building@.contains_key(value@) ==> !r,
    {
        if self.way.contains_key(value) {
            match self.way.get(value) {
                Some(s) => s.is_enabled,
                None => false,
            }
        } else if self.area.contains_key(value) {
            match self.area.get(value) {
                Some(s) => s.is_enabled,
                None => false,
            }
        } else if self.building.contains_key(value) {
            match self.building.get(value) {
                Some(s) => s.is_enabled,
                None => false,
            }
        } else {
            false
        }
    }
}

/// A tag key that passes the area filter passes the general tag filter.
pub proof fn lemma_area_tags_are_known(key: Seq<char>)
    ensures
        category_of_key(key) == Some(Category::Area) ==> category_of_key(key) is Some,
{
}

/// An enabled way style.
pub open spec fn way_style(width_bits: u32, color: RGB, threshold_bits: u32) -> WayStyleSettings {
    WayStyleSettings { is_enabled: true, width_bits, color, render_threshold_bits: Some(threshold_bits) }
}

/// An enabled area style.
pub open spec fn area_style(color: RGB, threshold_bits: Option<u32>) -> AreaStyleSettings {
    AreaStyleSettings { is_enabled: true, color, render_threshold_bits: threshold_bits }
}

// The default tables. Sizes and scales are `f32` bit patterns:
// 0x3F80_0000 is 1.0, 0x4000_0000 is 2.0, 0x4040_0000 is 3.0,
// 0x4080_0000 is 4.0, 0x40A0_0000 is 5.0, 0x40C0_0000 is 6.0,
// 0x40E0_0000 is 7.0 and 0x4100_0000 is 8.0.

pub open spec fn default_way_styles() -> Map<Seq<char>, WayStyleSettings> {
    Map::empty()
        .insert("motorway"@, way_style(0x40C0_0000, RGB { r: 180, g: 180, b: 180 }, 0x40C0_0000))
        .insert("trunk"@, way_style(0x40A0_0000, RGB { r: 180, g: 180, b: 180 }, 0x40C0_0000))
        .insert("primary"@, way_style(0x40A0_0000, RGB { r: 180, g: 180, b: 180 }, 0x40C0_0000))
        .insert("secondary"@, way_style(0x4080_0000, RGB { r: 180, g: 180, b: 180 }, 0x40C0_0000))
        .insert("tertiary"@, way_style(0x4040_0000, RGB { r: 180, g: 180, b: 180 }, 0x40E0_0000))
        .insert("unclassified"@, way_style(0x4000_0000, RGB { r: 180, g: 180, b: 180 }, 0x40E0_0000))
        .insert("residential"@, way_style(0x4000_0000, RGB { r: 180, g: 180, b: 180 }, 0x4100_0000))
        .insert("motorway_link"@, way_style(0x4000_0000, RGB { r: 180, g: 180, b: 180 }, 0x4100_0000))
        .insert("trunk_link"@, way_style(0x4000_0000, RGB { r: 180, g: 180, b: 180 }, 0x4100_0000))
        .insert("primary_link"@, way_style(0x4000_0000, RGB { r: 180, g: 180, b: 180 }, 0x4100_0000))
        .insert("secondary_link"@, way_style(0x4000_0000, RGB { r: 180, g: 180, b: 180 }, 0x4100_0000))
        .insert("tertiary_link"@, way_style(0x4000_0000, RGB { r: 180, g: 180, b: 180 }, 0x4100_0000))
        .insert("living_street"@, way_style(0x3F80_0000, RGB { r: 180, g: 180, b: 180 }, 0x4100_0000))
        .insert("service"@, way_style(0x3F80_0000, RGB { r: 180, g: 180, b: 180 }, 0x4100_0000))
        .insert("pedestrian"@, way_style(0x3F80_0000, RGB { r: 180, g: 180, b: 180 }, 0x4100_0000))
        .insert("track"@, way_style(0x3F80_0000, RGB { r: 180, g: 180, b: 180 }, 0x4100_0000))
        .insert("man_made"@, way_style(0x3F80_0000, RGB { r: 180, g: 180, b: 180 }, 0x4100_0000))
        .insert("stream"@, way_style(0x3F80_0000, RGB { r: 22, g: 122, b: 129 }, 0x40E0_0000))
}

pub open spec fn default_area_styles() -> Map<Seq<char>, AreaStyleSettings> {
    Map::empty()
        .insert("water"@, area_style(RGB { r: 22, g: 122, b: 129 }, None))
        .insert("forest"@, area_style(RGB { r: 82, g: 119, b: 70 }, None))
        .insert("grassland"@, area_style(RGB { r: 120, g: 159, b: 108 }, None))
        .insert("farmland"@, area_style(RGB { r: 136, g: 155, b: 96 }, None))
        .insert("residential"@, area_style(RGB { r: 160, g: 142, b: 134 }, None))
        .insert("construction"@, area_style(RGB { r: 95, g: 95, b: 95 }, None))
        .insert("commercial"@, area_style(RGB { r: 184, g: 131, b: 120 }, None))
        .insert("industrial"@, area_style(RGB { r: 184, g: 131, b: 120 }, None))
        .insert("retail"@, area_style(RGB { r: 184, g: 131, b: 120 }, None))
        .insert("wood"@, area_style(RGB { r: 120, g: 159, b: 108 }, None))
        .insert("railway"@, area_style(RGB { r: 146, g: 146, b: 146 }, None))
        .insert("parking"@, area_style(RGB { r: 146, g: 146, b: 146 }, None))
        .insert("quarry"@, area_style(RGB { r: 146, g: 146, b: 146 }, None))
        .insert("cemetery"@, area_style(RGB { r: 120, g: 159, b: 108 }, None))
        .insert("park"@, area_style(RGB { r: 120, g: 159, b: 108 }, None))
        .insert("dog_park"@, area_style(RGB { r: 120, g: 159, b: 108 }, None))
        .insert("garden"@, area_style(RGB { r: 120, g: 159, b: 108 }, None))
        .insert("pitch"@, area_style(RGB { r: 89, g: 163, b: 137 }, None))
        .insert("sports_center"@, area_style(RGB { r: 89, g: 163, b: 137 }, None))
        .insert("stadium"@, area_style(RGB { r: 121, g: 155, b: 141 }, None))
        .insert("swimming_pool"@, area_style(RGB { r: 22, g: 122, b: 129 }, None))
        .insert("track"@, area_style(RGB { r: 89, g: 163, b: 137 }, None))
        .insert("grave_yard"@, area_style(RGB { r: 92, g: 119, b: 66 }, None))
        .insert("plant_nursery"@, area_style(RGB { r: 120, g: 159, b: 108 }, None))
        .insert("brownfield"@, area_style(RGB { r: 127, g: 104, b: 92 }, None))
        .insert("allotments"@, area_style(RGB { r: 120, g: 159, b: 108 }, None))
        .insert("basin"@, area_style(RGB { r: 22, g: 122, b: 129 }, None))
        .insert("school"@, area_style(RGB { r: 160, g: 142, b: 134 }, None))
        .insert("grass"@, area_style(RGB { r: 151, g: 191, b: 138 }, None))
        .insert("meadow"@, area_style(RGB { r: 104, g: 143, b: 92 }, None))
        .insert("scrub"@, area_style(RGB { r: 90, g: 127, b: 78 }, None))
        .insert("farmyard"@, area_style(RGB { r: 184, g: 131, b: 120 }, None))
}

pub open spec fn default_building_styles() -> Map<Seq<char>, AreaStyleSettings> {
    Map::empty()
        .insert("yes"@, area_style(RGB { r: 100, g: 100, b: 100 }, Some(0x40E0_0000)))
        .insert("house"@, area_style(RGB { r: 100, g: 100, b: 100 }, Some(0x40E0_0000)))
        .insert("garage"@, area_style(RGB { r: 100, g: 100, b: 100 }, Some(0x40E0_0000)))
}

impl Default for MapStyleSettings {
    /// The built-in styles: roads and streams, land-use areas and buildings.
    fn default() -> (r: MapStyleSettings)
        ensures
            r.way@ == default_way_styles(),
            r.area@ == default_area_styles(),
            r.building@ == default_building_styles(),
    {
        let mut way = StyleTable::new();
        let road_color = RGB { r: 180, g: 180, b: 180 };

        way.insert("motorway".to_owned(), WayStyleSettings::new(0x40C0_0000, road_color, Some(0x40C0_0000)));
        way.insert("trunk".to_owned(), WayStyleSettings::new(0x40A0_0000, road_color, Some(0x40C0_0000)));
        way.insert("primary".to_owned(), WayStyleSettings::new(0x40A0_0000, road_color, Some(0x40C0_0000)));
        way.insert("secondary".to_owned(), WayStyleSettings::new(0x4080_0000, road_color, Some(0x40C0_0000)));
        way.insert("tertiary".to_owned(), WayStyleSettings::new(0x4040_0000, road_color, Some(0x40E0_0000)));
        way.insert("unclassified".to_owned(), WayStyleSettings::new(0x4000_0000, road_color, Some(0x40E0_0000)));
        way.insert("residential".to_owned(), WayStyleSettings::new(0x4000_0000, road_color, Some(0x4100_0000)));
        way.insert("motorway_link".to_owned(), WayStyleSettings::new(0x4000_0000, road_color, Some(0x4100_0000)));
        way.insert("trunk_link".to_owned(), WayStyleSettings::new(0x4000_0000, road_color, Some(0x4100_0000)));
        way.insert("primary_link".to_owned(), WayStyleSettings::new(0x4000_0000, road_color, Some(0x4100_0000)));
        way.insert("secondary_link".to_owned(), WayStyleSettings::new(0x4000_0000, road_color, Some(0x4100_0000)));
        way.insert("tertiary_link".to_owned(), WayStyleSettings::new(0x4000_0000, road_color, Some(0x4100_0000)));
        way.insert("living_street".to_owned(), WayStyleSettings::new(0x3F80_0000, road_color, Some(0x4100_0000)));
        way.insert("service".to_owned(), WayStyleSettings::new(0x3F80_0000, road_color, Some(0x4100_0000)));
        way.insert("pedestrian".to_owned(), WayStyleSettings::new(0x3F80_0000, road_color, Some(0x4100_0000)));
        way.insert("track".to_owned(), WayStyleSettings::new(0x3F80_0000, road_color, Some(0x4100_0000)));
        way.insert("man_made".to_owned(), WayStyleSettings::new(0x3F80_0000, road_color, Some(0x4100_0000)));
        way.insert("stream".to_owned(), WayStyleSettings::new(0x3F80_0000, RGB { r: 22, g: 122, b: 129 }, Some(0x40E0_0000)));

        let mut area = StyleTable::new();
        area.insert("water".to_owned(), AreaStyleSettings::new(RGB { r: 22, g: 122, b: 129 }));
        area.insert("forest".to_owned(), AreaStyleSettings::new(RGB { r: 82, g: 119, b: 70 }));
        area.insert("grassland".to_owned(), AreaStyleSettings::new(RGB { r: 120, g: 159, b: 108 }));
        area.insert("farmland".to_owned(), AreaStyleSettings::new(RGB { r: 136, g: 155, b: 96 }));
        area.insert("residential".to_owned(), AreaStyleSettings::new(RGB { r: 160, g: 142, b: 134 }));
        area.insert("construction".to_owned(), AreaStyleSettings::new(RGB { r: 95, g: 95, b: 95 }));
        area.insert("commercial".to_owned(), AreaStyleSettings::new(RGB { r: 184, g: 131, b: 120 }));
        area.insert("industrial".to_owned(), AreaStyleSettings::new(RGB { r: 184, g: 131, b: 120 }));
        area.insert("retail".to_owned(), AreaStyleSettings::new(RGB { r: 184, g: 131, b: 120 }));
        area.insert("wood".to_owned(), AreaStyleSettings::new(RGB { r: 120, g: 159, b: 108 }));
        area.insert("railway".to_owned(), AreaStyleSettings::new(RGB { r: 146, g: 146, b: 146 }));
        area.insert("parking".to_owned(), AreaStyleSettings::new(RGB { r: 146, g: 146, b: 146 }));
        area.insert("quarry".to_owned(), AreaStyleSettings::new(RGB { r: 146, g: 146, b: 146 }));
        area.insert("cemetery".to_owned(), AreaStyleSettings::new(RGB { r: 120, g: 159, b: 108 }));
        area.insert("park".to_owned(), AreaStyleSettings::new(RGB { r: 120, g: 159, b: 108 }));
        area.insert("dog_park".to_owned(), AreaStyleSettings::new(RGB { r: 120, g: 159, b: 108 }));
        area.insert("garden".to_owned(), AreaStyleSettings::new(RGB { r: 120, g: 159, b: 108 }));
        area.insert("pitch".to_owned(), AreaStyleSettings::new(RGB { r: 89, g: 163, b: 137 }));
        area.insert("sports_center".to_owned(), AreaStyleSettings::new(RGB { r: 89, g: 163, b: 137 }));
        area.insert("stadium".to_owned(), AreaStyleSettings::new(RGB { r: 121, g: 155, b: 141 }));
        area.insert("swimming_pool".to_owned(), AreaStyleSettings::new(RGB { r: 22, g: 122, b: 129 }));
        area.insert("track".to_owned(), AreaStyleSettings::new(RGB { r: 89, g: 163, b: 137 }));
        area.insert("grave_yard".to_owned(), AreaStyleSettings::new(RGB { r: 92, g: 119, b: 66 }));
        area.insert("plant_nursery".to_owned(), AreaStyleSettings::new(RGB { r: 120, g: 159, b: 108 }));
        area.insert("brownfield".to_owned(), AreaStyleSettings::new(RGB { r: 127, g: 104, b: 92 }));
        area.insert("allotments".to_owned(), AreaStyleSettings::new(RGB { r: 120, g: 159, b: 108 }));
        area.insert("basin".to_owned(), AreaStyleSettings::new(RGB { r: 22, g: 122, b: 129 }));
        area.insert("school".to_owned(), AreaStyleSettings::new(RGB { r: 160, g: 142, b: 134 }));
        area.insert("grass".to_owned(), AreaStyleSettings::new(RGB { r: 151, g: 191, b: 138 }));
        area.insert("meadow".to_owned(), AreaStyleSettings::new(RGB { r: 104, g: 143, b: 92 }));
        area.insert("scrub".to_owned(), AreaStyleSettings::new(RGB { r: 90, g: 127, b: 78 }));
        area.insert("farmyard".to_owned(), AreaStyleSettings::new(RGB { r: 184, g: 131, b: 120 }));

        let mut building = StyleTable::new();
        building.insert("yes".to_owned(), AreaStyleSettings::new_wt(RGB { r: 100, g: 100, b: 100 }, 0x40E0_0000));
        building.insert("house".to_owned(), AreaStyleSettings::new_wt(RGB { r: 100, g: 100, b: 100 }, 0x40E0_0000));
        building.insert("garage".to_owned(), AreaStyleSettings::new_wt(RGB { r: 100, g: 100, b: 100 }, 0x40E0_0000));

        MapStyleSettings { way, area, building }
    }
}

/// Whether a style table holds only enabled styles.
pub open spec fn all_way_styles_enabled(m: Map<Seq<char>, WayStyleSettings>) -> bool {
    forall|k: Seq<char>| #[trigger] m.contains_key(k) ==> m[k].is_enabled
}

/// Whether a style table holds only enabled styles.
pub open spec fn all_area_styles_enabled(m: Map<Seq<char>, AreaStyleSettings>) -> bool {
    forall|k: Seq<char>| #[trigger] m.contains_key(k) ==> m[k].is_enabled
}

/// With the default styles, a tag value passes the value filter exactly when
/// one of the three default tables has a style for it: every default style
/// is enabled.
pub proof fn lemma_default_values_enabled(s: MapStyleSettings, value: Seq<char>)
    requires
        s.way@ == default_way_styles(),
        s.area@ == default_area_styles(),
        s.building@ == default_building_styles(),
    ensures
        s.value_enabled(value) <==> (default_way_styles().contains_key(value)
            || default_area_styles().contains_key(value) || default_building_styles().contains_key(
            value,
        )),
{
    assert(all_way_styles_enabled(default_way_styles()));
    assert(all_area_styles_enabled(default_area_styles()));
    assert(all_area_styles_enabled(default_building_styles()));
}

/// The value filter asks the tables in turn: the `is_enabled` flag of the
/// style in the first of the way, area and building tables that holds the
/// value decides; a value none of them holds is filtered out.
pub proof fn lemma_value_filter_takes_first_table(s: MapStyleSettings, value: Seq<char>)
    ensures
        s.way@.contains_key(value) ==> s.value_enabled(value) == s.way@[value].is_enabled,
        !s.way@.contains_key(value) && s.area@.contains_key(value) ==> s.value_enabled(value)
            == s.area@[value].is_enabled,
        !s.way@.contains_key(value) && !s.area@.contains_key(value) && s.building@.contains_key(
            value,
        ) ==> s.value_enabled(value) == s.building@[value].is_enabled,
        !s.way@.contains_key(value) && !s.area@.contains_key(value) && !s.building@.contains_key(
            value,
        ) ==> !s.value_enabled(value),
{
}

/// The built-in way table, key by key: every road, path and stream style the map knows,
/// each enabled, with its size and scale as `f32` bit patterns.
pub proof fn lemma_default_way_styles_by_key()
    ensures
        default_way_styles().dom() == set!["motorway"@, "trunk"@, "primary"@, "secondary"@, "tertiary"@, "unclassified"@, "residential"@, "motorway_link"@, "trunk_link"@, "primary_link"@, "secondary_link"@, "tertiary_link"@, "living_street"@, "service"@, "pedestrian"@, "track"@, "man_made"@, "stream"@],
        default_way_styles()["motorway"@] == (WayStyleSettings { is_enabled: true, width_bits: 0x40C0_0000, color: RGB { r: 180, g: 180, b: 180 }, render_threshold_bits: Some(0x40C0_0000) }),
        default_way_styles()["trunk"@] == (WayStyleSettings { is_enabled: true, width_bits: 0x40A0_0000, color: RGB { r: 180, g: 180, b: 180 }, render_threshold_bits: Some(0x40C0_0000) }),
        default_way_styles()["primary"@] == (WayStyleSettings { is_enabled: true, width_bits: 0x40A0_0000, color: RGB { r: 180, g: 180, b: 180 }, render_threshold_bits: Some(0x40C0_0000) }),
        default_way_styles()["secondary"@] == (WayStyleSettings { is_enabled: true, width_bits: 0x4080_0000, color: RGB { r: 180, g: 180, b: 180 }, render_threshold_bits: Some(0x40C0_0000) }),
        default_way_styles()["tertiary"@] == (WayStyleSettings { is_enabled: true, width_bits: 0x4040_0000, color: RGB { r: 180, g: 180, b: 180 }, render_threshold_bits: Some(0x40E0_0000) }),
        default_way_styles()["unclassified"@] == (WayStyleSettings { is_enabled: true, width_bits: 0x4000_0000, color: RGB { r: 180, g: 180, b: 180 }, render_threshold_bits: Some(0x40E0_0000) }),
        default_way_styles()["residential"@] == (WayStyleSettings { is_enabled: true, width_bits: 0x4000_0000, color: RGB { r: 180, g: 180, b: 180 }, render_threshold_bits: Some(0x4100_0000) }),
        default_way_styles()["motorway_link"@] == (WayStyleSettings { is_enabled: true, width_bits: 0x4000_0000, color: RGB { r: 180, g: 180, b: 180 }, render_threshold_bits: Some(0x4100_0000) }),
        default_way_styles()["trunk_link"@] == (WayStyleSettings { is_enabled: true, width_bits: 0x4000_0000, color: RGB { r: 180, g: 180, b: 180 }, render_threshold_bits: Some(0x4100_0000) }),
        default_way_styles()["primary_link"@] == (WayStyleSettings { is_enabled: true, width_bits: 0x4000_0000, color: RGB { r: 180, g: 180, b: 180 }, render_threshold_bits: Some(0x4100_0000) }),
        default_way_styles()["secondary_link"@] == (WayStyleSettings { is_enabled: true, width_bits: 0x4000_0000, color: RGB { r: 180, g: 180, b: 180 }, render_threshold_bits: Some(0x4100_0000) }),
        default_way_styles()["tertiary_link"@] == (WayStyleSettings { is_enabled: true, width_bits: 0x4000_0000, color: RGB { r: 180, g: 180, b: 180 }, render_threshold_bits: Some(0x4100_0000) }),
        default_way_styles()["living_street"@] == (WayStyleSettings { is_enabled: true, width_bits: 0x3F80_0000, color: RGB { r: 180, g: 180, b: 180 }, render_threshold_bits: Some(0x4100_0000) }),
        default_way_styles()["service"@] == (WayStyleSettings { is_enabled: true, width_bits: 0x3F80_0000, color: RGB { r: 180, g: 180, b: 180 }, render_threshold_bits: Some(0x4100_0000) }),
        default_way_styles()["pedestrian"@] == (WayStyleSettings { is_enabled: true, width_bits: 0x3F80_0000, color: RGB { r: 180, g: 180, b: 180 }, render_threshold_bits: Some(0x4100_0000) }),
        default_way_styles()["track"@] == (WayStyleSettings { is_enabled: true, width_bits: 0x3F80_0000, color: RGB { r: 180, g: 180, b: 180 }, render_threshold_bits: Some(0x4100_0000) }),
        default_way_styles()["man_made"@] == (WayStyleSettings { is_enabled: true, width_bits: 0x3F80_0000, color: RGB { r: 180, g: 180, b: 180 }, render_threshold_bits: Some(0x4100_0000) }),
        default_way_styles()["stream"@] == (WayStyleSettings { is_enabled: true, width_bits: 0x3F80_0000, color: RGB { r: 22, g: 122, b: 129 }, render_threshold_bits: Some(0x40E0_0000) }),
{
    reveal_strlit("motorway");
    assert("motorway"@.len() == 8 && "motorway"@[0] == 'm' && "motorway"@[1] == 'o');
    reveal_strlit("trunk");
    assert("trunk"@.len() == 5 && "trunk"@[2] == 'u');
    reveal_strlit("primary");
    assert("primary"@.len() == 7 && "primary"@[0] == 'p');
    reveal_strlit("secondary");
    assert("secondary"@.len() == 9);
    reveal_strlit("tertiary");
    assert("tertiary"@.len() == 8 && "tertiary"@[0] == 't');
    reveal_strlit("unclassified");
    assert("unclassified"@.len() == 12 && "unclassified"@[0] == 'u');
    reveal_strlit("residential");
    assert("residential"@.len() == 11);
    reveal_strlit("motorway_link");
    assert("motorway_link"@.len() == 13 && "motorway_link"@[0] == 'm');
    reveal_strlit("trunk_link");
    assert("trunk_link"@.len() == 10 && "trunk_link"@[0] == 't');
    reveal_strlit("primary_link");
    assert("primary_link"@.len() == 12 && "primary_link"@[0] == 'p');
    reveal_strlit("secondary_link");
    assert("secondary_link"@.len() == 14);
    reveal_strlit("tertiary_link");
    assert("tertiary_link"@.len() == 13 && "tertiary_link"@[0] == 't');
    reveal_strlit("living_street");
    assert("living_street"@.len() == 13 && "living_street"@[0] == 'l');
    reveal_strlit("service");
    assert("service"@.len() == 7 && "service"@[0] == 's');
    reveal_strlit("pedestrian");
    assert("pedestrian"@.len() == 10 && "pedestrian"@[0] == 'p');
    reveal_strlit("track");
    assert("track"@.len() == 5 && "track"@[2] == 'a');
    reveal_strlit("man_made");
    assert("man_made"@.len() == 8 && "man_made"@[0] == 'm' && "man_made"@[1] == 'a');
    reveal_strlit("stream");
    assert("stream"@.len() == 6);
    assert(default_way_styles().dom() =~= set!["motorway"@, "trunk"@, "primary"@, "secondary"@, "tertiary"@, "unclassified"@, "residential"@, "motorway_link"@, "trunk_link"@, "primary_link"@, "secondary_link"@, "tertiary_link"@, "living_street"@, "service"@, "pedestrian"@, "track"@, "man_made"@, "stream"@]);
}

/// The built-in area table, key by key: every land-use, leisure and water style the map knows,
/// each enabled, with its size and scale as `f32` bit patterns.
pub proof fn lemma_default_area_styles_by_key()
    ensures
        default_area_styles().dom() == set!["water"@, "forest"@, "grassland"@, "farmland"@, "residential"@, "construction"@, "commercial"@, "industrial"@, "retail"@, "wood"@, "railway"@, "parking"@, "quarry"@, "cemetery"@, "park"@, "dog_park"@, "garden"@, "pitch"@, "sports_center"@, "stadium"@, "swimming_pool"@, "track"@, "grave_yard"@, "plant_nursery"@, "brownfield"@, "allotments"@, "basin"@, "school"@, "grass"@, "meadow"@, "scrub"@, "farmyard"@],
        default_area_styles()["water"@] == (AreaStyleSettings { is_enabled: true, color: RGB { r: 22, g: 122, b: 129 }, render_threshold_bits: None }),
        default_area_styles()["forest"@] == (AreaStyleSettings { is_enabled: true, color: RGB { r: 82, g: 119, b: 70 }, render_threshold_bits: None }),
        default_area_styles()["grassland"@] == (AreaStyleSettings { is_enabled: true, color: RGB { r: 120, g: 159, b: 108 }, render_threshold_bits: None }),
        default_area_styles()["farmland"@] == (AreaStyleSettings { is_enabled: true, color: RGB { r: 136, g: 155, b: 96 }, render_threshold_bits: None }),
        default_area_styles()["residential"@] == (AreaStyleSettings { is_enabled: true, color: RGB { r: 160, g: 142, b: 134 }, render_threshold_bits: None }),
        default_area_styles()["construction"@] == (AreaStyleSettings { is_enabled: true, color: RGB { r: 95, g: 95, b: 95 }, render_threshold_bits: None }),
        default_area_styles()["commercial"@] == (AreaStyleSettings { is_enabled: true, color: RGB { r: 184, g: 131, b: 120 }, render_threshold_bits: None }),
        default_area_styles()["industrial"@] == (AreaStyleSettings { is_enabled: true, color: RGB { r: 184, g: 131, b: 120 }, render_threshold_bits: None }),
        default_area_styles()["retail"@] == (AreaStyleSettings { is_enabled: true, color: RGB { r: 184, g: 131, b: 120 }, render_threshold_bits: None }),
        default_area_styles()["wood"@] == (AreaStyleSettings { is_enabled: true, color: RGB { r: 120, g: 159, b: 108 }, render_threshold_bits: None }),
        default_area_styles()["railway"@] == (AreaStyleSettings { is_enabled: true, color: RGB { r: 146, g: 146, b: 146 }, render_threshold_bits: None }),
        default_area_styles()["parking"@] == (AreaStyleSettings { is_enabled: true, color: RGB { r: 146, g: 146, b: 146 }, render_threshold_bits: None }),
        default_area_styles()["quarry"@] == (AreaStyleSettings { is_enabled: true, color: RGB { r: 146, g: 146, b: 146 }, render_threshold_bits: None }),
        default_area_styles()["cemetery"@] == (AreaStyleSettings { is_enabled: true, color: RGB { r: 120, g: 159, b: 108 }, render_threshold_bits: None }),
        default_area_styles()["park"@] == (AreaStyleSettings { is_enabled: true, color: RGB { r: 120, g: 159, b: 108 }, render_threshold_bits: None }),
        default_area_styles()["dog_park"@] == (AreaStyleSettings { is_enabled: true, color: RGB { r: 120, g: 159, b: 108 }, render_threshold_bits: None }),
        default_area_styles()["garden"@] == (AreaStyleSettings { is_enabled: true, color: RGB { r: 120, g: 159, b: 108 }, render_threshold_bits: None }),
        default_area_styles()["pitch"@] == (AreaStyleSettings { is_enabled: true, color: RGB { r: 89, g: 163, b: 137 }, render_threshold_bits: None }),
        default_area_styles()["sports_center"@] == (AreaStyleSettings { is_enabled: true, color: RGB { r: 89, g: 163, b: 137 }, render_threshold_bits: None }),
        default_area_styles()["stadium"@] == (AreaStyleSettings { is_enabled: true, color: RGB { r: 121, g: 155, b: 141 }, render_threshold_bits: None }),
        default_area_styles()["swimming_pool"@] == (AreaStyleSettings { is_enabled: true, color: RGB { r: 22, g: 122, b: 129 }, render_threshold_bits: None }),
        default_area_styles()["track"@] == (AreaStyleSettings { is_enabled: true, color: RGB { r: 89, g: 163, b: 137 }, render_threshold_bits: None }),
        default_area_styles()["grave_yard"@] == (AreaStyleSettings { is_enabled: true, color: RGB { r: 92, g: 119, b: 66 }, render_threshold_bits: None }),
        default_area_styles()["plant_nursery"@] == (AreaStyleSettings { is_enabled: true, color: RGB { r: 120, g: 159, b: 108 }, render_threshold_bits: None }),
        default_area_styles()["brownfield"@] == (AreaStyleSettings { is_enabled: true, color: RGB { r: 127, g: 104, b: 92 }, render_threshold_bits: None }),
        default_area_styles()["allotments"@] == (AreaStyleSettings { is_enabled: true, color: RGB { r: 120, g: 159, b: 108 }, render_threshold_bits: None }),
        default_area_styles()["basin"@] == (AreaStyleSettings { is_enabled: true, color: RGB { r: 22, g: 122, b: 129 }, render_threshold_bits: None }),
        default_area_styles()["school"@] == (AreaStyleSettings { is_enabled: true, color: RGB { r: 160, g: 142, b: 134 }, render_threshold_bits: None }),
        default_area_styles()["grass"@] == (AreaStyleSettings { is_enabled: true, color: RGB { r: 151, g: 191, b: 138 }, render_threshold_bits: None }),
        default_area_styles()["meadow"@] == (AreaStyleSettings { is_enabled: true, color: RGB { r: 104, g: 143, b: 92 }, render_threshold_bits: None }),
        default_area_styles()["scrub"@] == (AreaStyleSettings { is_enabled: true, color: RGB { r: 90, g: 127, b: 78 }, render_threshold_bits: None }),
        default_area_styles()["farmyard"@] == (AreaStyleSettings { is_enabled: true, color: RGB { r: 184, g: 131, b: 120 }, render_threshold_bits: None }),
{
    reveal_strlit("water");
    assert("water"@.len() == 5 && "water"@[0] == 'w');
    reveal_strlit("forest");
    assert("forest"@.len() == 6 && "forest"@[0] == 'f');
    reveal_strlit("grassland");
    assert("grassland"@.len() == 9);
    reveal_strlit("farmland");
    assert("farmland"@.len() == 8 && "farmland"@[0] == 'f' && "farmland"@[4] == 'l');
    reveal_strlit("residential");
    assert("residential"@.len() == 11);
    reveal_strlit("construction");
    assert("construction"@.len() == 12);
    reveal_strlit("commercial");
    assert("commercial"@.len() == 10 && "commercial"@[0] == 'c');
    reveal_strlit("industrial");
    assert("industrial"@.len() == 10 && "industrial"@[0] == 'i');
    reveal_strlit("retail");
    assert("retail"@.len() == 6 && "retail"@[0] == 'r');
    reveal_strlit("wood");
    assert("wood"@.len() == 4 && "wood"@[0] == 'w');
    reveal_strlit("railway");
    assert("railway"@.len() == 7 && "railway"@[0] == 'r');
    reveal_strlit("parking");
    assert("parking"@.len() == 7 && "parking"@[0] == 'p');
    reveal_strlit("quarry");
    assert("quarry"@.len() == 6 && "quarry"@[0] == 'q');
    reveal_strlit("cemetery");
    assert("cemetery"@.len() == 8 && "cemetery"@[0] == 'c');
    reveal_strlit("park");
    assert("park"@.len() == 4 && "park"@[0] == 'p');
    reveal_strlit("dog_park");
    assert("dog_park"@.len() == 8 && "dog_park"@[0] == 'd');
    reveal_strlit("garden");
    assert("garden"@.len() == 6 && "garden"@[0] == 'g');
    reveal_strlit("pitch");
    assert("pitch"@.len() == 5 && "pitch"@[0] == 'p');
    reveal_strlit("sports_center");
    assert("sports_center"@.len() == 13 && "sports_center"@[0] == 's' && "sports_center"@[1] == 'p');
    reveal_strlit("stadium");
    assert("stadium"@.len() == 7 && "stadium"@[0] == 's');
    reveal_strlit("swimming_pool");
    assert("swimming_pool"@.len() == 13 && "swimming_pool"@[0] == 's' && "swimming_pool"@[1] == 'w');
    reveal_strlit("track");
    assert("track"@.len() == 5 && "track"@[0] == 't');
    reveal_strlit("grave_yard");
    assert("grave_yard"@.len() == 10 && "grave_yard"@[0] == 'g');
    reveal_strlit("plant_nursery");
    assert("plant_nursery"@.len() == 13 && "plant_nursery"@[0] == 'p');
    reveal_strlit("brownfield");
    assert("brownfield"@.len() == 10 && "brownfield"@[0] == 'b');
    reveal_strlit("allotments");
    assert("allotments"@.len() == 10 && "allotments"@[0] == 'a');
    reveal_strlit("basin");
    assert("basin"@.len() == 5 && "basin"@[0] == 'b');
    reveal_strlit("school");
    assert("school"@.len() == 6 && "school"@[0] == 's');
    reveal_strlit("grass");
    assert("grass"@.len() == 5 && "grass"@[0] == 'g');
    reveal_strlit("meadow");
    assert("meadow"@.len() == 6 && "meadow"@[0] == 'm');
    reveal_strlit("scrub");
    assert("scrub"@.len() == 5 && "scrub"@[0] == 's');
    reveal_strlit("farmyard");
    assert("farmyard"@.len() == 8 && "farmyard"@[0] == 'f' && "farmyard"@[4] == 'y');
    assert(default_area_styles().dom() =~= set!["water"@, "forest"@, "grassland"@, "farmland"@, "residential"@, "construction"@, "commercial"@, "industrial"@, "retail"@, "wood"@, "railway"@, "parking"@, "quarry"@, "cemetery"@, "park"@, "dog_park"@, "garden"@, "pitch"@, "sports_center"@, "stadium"@, "swimming_pool"@, "track"@, "grave_yard"@, "plant_nursery"@, "brownfield"@, "allotments"@, "basin"@, "school"@, "grass"@, "meadow"@, "scrub"@, "farmyard"@]);
}

/// The built-in building table, key by key: every building style the map knows,
/// each enabled, with its size and scale as `f32` bit patterns.
pub proof fn lemma_default_building_styles_by_key()
    ensures
        default_building_styles().dom() == set!["yes"@, "house"@, "garage"@],
        default_building_styles()["yes"@] == (AreaStyleSettings { is_enabled: true, color: RGB { r: 100, g: 100, b: 100 }, render_threshold_bits: Some(0x40E0_0000) }),
        default_building_styles()["house"@] == (AreaStyleSettings { is_enabled: true, color: RGB { r: 100, g: 100, b: 100 }, render_threshold_bits: Some(0x40E0_0000) }),
        default_building_styles()["garage"@] == (AreaStyleSettings { is_enabled: true, color: RGB { r: 100, g: 100, b: 100 }, render_threshold_bits: Some(0x40E0_0000) }),
{
    reveal_strlit("yes");
    assert("yes"@.len() == 3);
    reveal_strlit("house");
    assert("house"@.len() == 5);
    reveal_strlit("garage");
    assert("garage"@.len() == 6);
    assert(default_building_styles().dom() =~= set!["yes"@, "house"@, "garage"@]);
}

/// The tag keys the map knows, key by key: `highway` and `man_made` are
/// paths, `natural`, `landuse`, `amenity` and `leisure` are areas,
/// `building` is a building and `waterway` water; every other key is unknown.
pub proof fn lemma_known_tag_keys(key: Seq<char>)
    ensures
        category_of_key("highway"@) == Some(Category::Path),
        category_of_key("man_made"@) == Some(Category::Path),
        category_of_key("natural"@) == Some(Category::Area),
        category_of_key("landuse"@) == Some(Category::Area),
        category_of_key("amenity"@) == Some(Category::Area),
        category_of_key("leisure"@) == Some(Category::Area),
        category_of_key("building"@) == Some(Category::Building),
        category_of_key("waterway"@) == Some(Category::Water),
        key != "highway"@ && key != "man_made"@ && key != "natural"@ && key != "landuse"@ && key != "amenity"@ && key != "leisure"@ && key != "building"@ && key != "waterway"@ ==> category_of_key(key) is None,
{
    reveal_strlit("highway");
    assert("highway"@.len() == 7 && "highway"@[0] == 'h');
    reveal_strlit("man_made");
    assert("man_made"@.len() == 8 && "man_made"@[0] == 'm');
    reveal_strlit("natural");
    assert("natural"@.len() == 7 && "natural"@[0] == 'n');
    reveal_strlit("landuse");
    assert("landuse"@.len() == 7 && "landuse"@[0] == 'l' && "landuse"@[1] == 'a');
    reveal_strlit("amenity");
    assert("amenity"@.len() == 7 && "amenity"@[0] == 'a');
    reveal_strlit("leisure");
    assert("leisure"@.len() == 7 && "leisure"@[0] == 'l' && "leisure"@[1] == 'e');
    reveal_strlit("building");
    assert("building"@.len() == 8 && "building"@[0] == 'b');
    reveal_strlit("waterway");
    assert("waterway"@.len() == 8 && "waterway"@[0] == 'w');
}

} // verus!
