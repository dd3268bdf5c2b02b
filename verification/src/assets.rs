//! Unit statistics and the nation/unit asset catalogue: immutable records
//! the loader supplies, keyed by nation and unit name.

use vstd::prelude::*;

use crate::abilities::{ActiveAbilityType, PassiveCombatAbility};

verus! {

/// Default cost of an attack, in action points, where a record names none.
pub fn default_attack_action_point_cost() -> (res: usize)
    ensures
        res == 2,
{
    2
}

/// Default number of attacks per round where a record names none.
pub fn default_max_attacks_per_round() -> (res: usize)
    ensures
        res == 1,
{
    1
}

/// Default attack range where a record names none.
pub fn default_range() -> (res: u32)
    ensures
        res == 1,
{
    1
}

/// The immutable statistics of one unit kind, as its stats file states
/// them.
#[derive(Clone, Debug)]
pub struct UnitStats {
    pub name: String,
    pub max_action_points: usize,
    pub max_health_points: usize,
    pub damage: usize,
    pub defense: usize,
    pub attack_action_point_cost: usize,
    pub max_attacks_per_round: usize,
    pub range: u32,
    pub passive_combat_abilities: Vec<PassiveCombatAbility>,
    pub active_abilities: Vec<ActiveAbilityType>,
}

/// Names a unit kind inside a nation; the pair determines its asset paths.
#[derive(Clone, Debug)]
pub struct UnitKey {
    pub nation: String,
    pub name: String,
}

impl UnitKey {
    /// `nations/<nation>/units/<name>/sprite.png`.
    pub fn get_image_asset_path(&self) -> (res: String)
        ensures
            res@ == "nations/"@ + self.nation@ + "/units/"@ + self.name@ + "/sprite.png"@,
    {
        let mut out: Vec<char> = Vec::new();
        crate::strutil::push_str_chars(&mut out, "nations/");
        crate::strutil::push_chars_of_string(&mut out, &self.nation);
        crate::strutil::push_str_chars(&mut out, "/units/");
        crate::strutil::push_chars_of_string(&mut out, &self.name);
        crate::strutil::push_str_chars(&mut out, "/sprite.png");
        crate::strutil::chars_to_string(&out)
    }

    /// `nations/<nation>/units/<name>/unit.stats.ron`.
    pub fn get_stats_asset_path(&self) -> (res: String)
        ensures
            res@ == "nations/"@ + self.nation@ + "/units/"@ + self.name@ + "/unit.stats.ron"@,
    {
        let mut out: Vec<char> = Vec::new();
        crate::strutil::push_str_chars(&mut out, "nations/");
        crate::strutil::push_chars_of_string(&mut out, &self.nation);
        crate::strutil::push_str_chars(&mut out, "/units/");
        crate::strutil::push_chars_of_string(&mut out, &self.name);
        crate::strutil::push_str_chars(&mut out, "/unit.stats.ron");
        crate::strutil::chars_to_string(&out)
    }
}

/// Exactly one separator colon stands at position `i` of `s`.
pub open spec fn single_colon_at(s: Seq<char>, i: int) -> bool {
    &&& 0 <= i < s.len()
    &&& s[i] == ':'
    &&& forall|j: int| 0 <= j < s.len() && j != i ==> s[j] != ':'
}

impl UnitKey {
    /// The flat string form of a key: `<nation>:<name>`.
    pub fn to_key_string(&self) -> (res: String)
        ensures
            res@ == self.nation@ + ":"@ + self.name@,
    {
        let mut out: Vec<char> = Vec::new();
        crate::strutil::push_chars_of_string(&mut out, &self.nation);
        crate::strutil::push_str_chars(&mut out, ":");
        crate::strutil::push_chars_of_string(&mut out, &self.name);
        crate::strutil::chars_to_string(&out)
    }

    /// Reads a key back from its flat string form: accepted exactly when the
    /// text holds a single colon, which splits nation from name.
    pub fn from_key_string(s: &str) -> (res: Option<UnitKey>)
        ensures
            res matches Some(k) ==> exists|i: int|
                #[trigger] single_colon_at(s@, i) && k.nation@ == s@.subrange(0, i) && k.name@
                    == s@.subrange(i + 1, s@.len() as int),
            res is None ==> !(exists|i: int| #[trigger] single_colon_at(s@, i)),
    {
        let chars = crate::strutil::str_to_chars(s);
        let mut colon: Option<usize> = None;
        let mut i: usize = 0;
        while i < chars.len()
            invariant
                i <= chars@.len(),
                chars@ == s@,
                match colon {
                    Some(c) => c < i && s@[c as int] == ':' && (forall|j: int|
                        0 <= j < i && j != c ==> s@[j] != ':'),
                    None => forall|j: int| 0 <= j < i ==> s@[j] != ':',
                },
            decreases chars@.len() - i,
        {
            if chars[i] == ':' {
                match colon {
                    Some(_) => {
                        proof {
                            assert forall|i2: int| !single_colon_at(s@, i2) by {
                                if single_colon_at(s@, i2) {
                                    assert(s@[colon->Some_0 as int] == ':');
                                    assert(s@[i as int] == ':');
                                }
                            }
                        }
                        return None;
                    },
                    None => {
                        colon = Some(i);
                    },
                }
            }
            i = i + 1;
        }
        let c = match colon {
            Some(c) => c,
            None => {
                proof {
                    assert forall|i2: int| !single_colon_at(s@, i2) by {}
                }
                return None;
            },
        };
        let mut nation: Vec<char> = Vec::new();
        let mut k: usize = 0;
        while k < c
            invariant
                c < chars@.len(),
                chars@ == s@,
                k <= c,
                nation@ == s@.subrange(0, k as int),
            decreases c - k,
        {
            nation.push(chars[k]);
            proof {
                assert(s@.subrange(0, k as int).push(s@[k as int]) =~= s@.subrange(0, k + 1));
            }
            k = k + 1;
        }
        let mut name: Vec<char> = Vec::new();
        let mut k2: usize = c + 1;
        while k2 < chars.len()
            invariant
                c < chars@.len(),
                chars@ == s@,
                c + 1 <= k2 <= chars@.len(),
                name@ == s@.subrange(c + 1, k2 as int),
            decreases chars@.len() - k2,
        {
            name.push(chars[k2]);
            proof {
                assert(s@.subrange(c + 1, k2 as int).push(s@[k2 as int]) =~= s@.subrange(
                    c + 1,
                    k2 + 1,
                ));
            }
            k2 = k2 + 1;
        }
        proof {
            assert(single_colon_at(s@, c as int));
        }
        Some(
            UnitKey {
                nation: crate::strutil::chars_to_string(&nation),
                name: crate::strutil::chars_to_string(&name),
            },
        )
    }
}

/// One unit directory of a nation, as the asset scan found it.
#[derive(Clone, Debug)]
pub struct UnitAssetsDefinition {
    pub path: String,
}

/// One nation directory with its unit directories.
#[derive(Clone, Debug)]
pub struct NationAssetsDefinition {
    pub path: String,
    pub units: Vec<UnitAssetsDefinition>,
}

/// The whole generated asset manifest: every nation the scan found.
#[derive(Clone, Debug)]
pub struct DynamicNationAssetsDefinition(pub Vec<NationAssetsDefinition>);

impl NationAssetsDefinition {
    /// The unit keys of this nation, one per unit directory, in order.
    pub fn get_units(&self) -> (res: Vec<UnitKey>)
        ensures
            res@.len() == self.units@.len(),
            forall|i: int|
                0 <= i < res@.len() ==> (#[trigger] res@[i]).nation@ == self.path@ && res@[i].name@
                    == self.units@[i].path@,
    {
        let mut out: Vec<UnitKey> = Vec::new();
        let mut i: usize = 0;
        while i < self.units.len()
            invariant
                i <= self.units@.len(),
                out@.len() == i,
                forall|j: int|
                    0 <= j < i ==> (#[trigger] out@[j]).nation@ == self.path@ && out@[j].name@
                        == self.units@[j].path@,
            decreases self.units@.len() - i,
        {
            out.push(
                UnitKey {
                    nation: crate::strutil::clone_string(&self.path),
                    name: crate::strutil::clone_string(&self.units[i].path),
                },
            );
            i = i + 1;
        }
        out
    }
}

/// Names a nation in the catalogue.
#[derive(Clone, Debug)]
pub struct NationKey(pub String);

/// A nation as the menus show it.
#[derive(Clone, Debug)]
pub struct Nation {
    pub name: String,
    pub key: NationKey,
}

/// A nation picked by a player during setup.
#[derive(Clone, Debug)]
pub struct PickedNation {
    pub nation: NationKey,
}

/// The catalogue the loader builds once assets are read: nation definitions
/// and the stats of every unit, keyed by its stats asset path.
pub struct NationAssetsResource {
    pub nation_assets_definition: Vec<NationAssetsDefinition>,
    pub unit_stats: Vec<(String, UnitStats)>,
}

impl NationAssetsResource {
    /// Every nation of the catalogue, in definition order.
    pub fn get_nations(&self) -> (res: Vec<Nation>)
        ensures
            res@.len() == self.nation_assets_definition@.len(),
            forall|i: int|
                0 <= i < res@.len() ==> (#[trigger] res@[i]).name@
                    == self.nation_assets_definition@[i].path@ && res@[i].key.0@
                    == self.nation_assets_definition@[i].path@,
    {
        let mut out: Vec<Nation> = Vec::new();
        let mut i: usize = 0;
        while i < self.nation_assets_definition.len()
            invariant
                i <= self.nation_assets_definition@.len(),
                out@.len() == i,
                forall|j: int|
                    0 <= j < i ==> (#[trigger] out@[j]).name@
                        == self.nation_assets_definition@[j].path@ && out@[j].key.0@
                        == self.nation_assets_definition@[j].path@,
            decreases self.nation_assets_definition@.len() - i,
        {
            let path = &self.nation_assets_definition[i].path;
            out.push(
                Nation {
                    name: crate::strutil::clone_string(path),
                    key: NationKey(crate::strutil::clone_string(path)),
                },
            );
            i = i + 1;
        }
        out
    }

    /// The nation a key names, if the catalogue holds it.
    pub fn get_nation(&self, nation_key: &NationKey) -> (res: Option<Nation>)
        ensures
            match res {
                Some(n) => n.name@ == nation_key.0@ && n.key.0@ == nation_key.0@ && exists|j: int|
                    0 <= j < self.nation_assets_definition@.len() && (
                    #[trigger] self.nation_assets_definition@[j]).path@ == nation_key.0@,
                None => forall|j: int|
                    0 <= j < self.nation_assets_definition@.len() ==> (
                    #[trigger] self.nation_assets_definition@[j]).path@ != nation_key.0@,
            },
    {
        let mut i: usize = 0;
        while i < self.nation_assets_definition.len()
            invariant
                i <= self.nation_assets_definition@.len(),
                forall|j: int|
                    0 <= j < i ==> (#[trigger] self.nation_assets_definition@[j]).path@
                        != nation_key.0@,
            decreases self.nation_assets_definition@.len() - i,
        {
            let path = &self.nation_assets_definition[i].path;
            if crate::strutil::strings_equal(path, &nation_key.0) {
                return Some(
                    Nation {
                        name: crate::strutil::clone_string(path),
                        key: NationKey(crate::strutil::clone_string(path)),
                    },
                );
            }
            i = i + 1;
        }
        None
    }

    /// The unit keys of the first nation the key names, or an empty list for
    /// an unknown key.
    pub fn get_units(&self, nation_key: &NationKey) -> (res: Vec<UnitKey>)
        ensures
            (forall|j: int|
                0 <= j < self.nation_assets_definition@.len() ==> (
                #[trigger] self.nation_assets_definition@[j]).path@ != nation_key.0@) ==> res@.len()
                == 0,
            (exists|j: int|
                0 <= j < self.nation_assets_definition@.len() && (
                #[trigger] self.nation_assets_definition@[j]).path@ == nation_key.0@) ==> (exists|
                j: int,
            |
                0 <= j < self.nation_assets_definition@.len() && (
                #[trigger] self.nation_assets_definition@[j]).path@ == nation_key.0@ && (forall|
                    j2: int,
                |
                    0 <= j2 < j ==> (#[trigger] self.nation_assets_definition@[j2]).path@
                        != nation_key.0@) && res@.len()
                == self.nation_assets_definition@[j].units@.len() && (forall|k: int|
                    0 <= k < res@.len() ==> (#[trigger] res@[k]).nation@ == nation_key.0@
                        && res@[k].name@ == self.nation_assets_definition@[j].units@[k].path@)),
    {
        let mut i: usize = 0;
        while i < self.nation_assets_definition.len()
            invariant
                i <= self.nation_assets_definition@.len(),
                forall|j: int|
                    0 <= j < i ==> (#[trigger] self.nation_assets_definition@[j]).path@
                        != nation_key.0@,
            decreases self.nation_assets_definition@.len() - i,
        {
            let nd = &self.nation_assets_definition[i];
            if crate::strutil::strings_equal(&nd.path, &nation_key.0) {
                let keys = nd.get_units();
                proof {
                    assert(0 <= i < self.nation_assets_definition@.len() && (
                    #[trigger] self.nation_assets_definition@[i as int]).path@ == nation_key.0@ && (
                    forall|j2: int|
                        0 <= j2 < i ==> (#[trigger] self.nation_assets_definition@[j2]).path@
                            != nation_key.0@) && keys@.len()
                        == self.nation_assets_definition@[i as int].units@.len() && (forall|k: int|
                        0 <= k < keys@.len() ==> (#[trigger] keys@[k]).nation@ == nation_key.0@
                            && keys@[k].name@ == self.nation_assets_definition@[
                        i as int].units@[k].path@));
                }
                return keys;
            }
            i = i + 1;
        }
        Vec::new()
    }

    /// The stats stored under the unit's stats asset path, if any.
    pub fn get_unit_stats(&self, unit_key: &UnitKey) -> (res: Option<&UnitStats>)
        ensures
            match res {
                Some(st) => exists|j: int|
                    0 <= j < self.unit_stats@.len() && (#[trigger] self.unit_stats@[j]).1 == *st
                        && self.unit_stats@[j].0@ == "nations/"@ + unit_key.nation@ + "/units/"@
                        + unit_key.name@ + "/unit.stats.ron"@,
                None => forall|j: int|
                    0 <= j < self.unit_stats@.len() ==> (#[trigger] self.unit_stats@[j]).0@
                        != "nations/"@ + unit_key.nation@ + "/units/"@ + unit_key.name@
                        + "/unit.stats.ron"@,
            },
    {
        let path = unit_key.get_stats_asset_path();
        let mut i: usize = 0;
        while i < self.unit_stats.len()
            invariant
                i <= self.unit_stats@.len(),
                path@ == "nations/"@ + unit_key.nation@ + "/units/"@ + unit_key.name@
                    + "/unit.stats.ron"@,
                forall|j: int|
                    0 <= j < i ==> (#[trigger] self.unit_stats@[j]).0@ != path@,
            decreases self.unit_stats@.len() - i,
        {
            if crate::strutil::strings_equal(&self.unit_stats[i].0, &path) {
                return Some(&self.unit_stats[i].1);
            }
            i = i + 1;
        }
        None
    }
}

} // verus!
