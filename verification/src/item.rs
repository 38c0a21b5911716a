use vstd::prelude::*;
use crate::text::str_eq;

verus! {

/// An in-game item, as attached to a damage cause as its weapon.
#[derive(Debug, Clone)]
pub struct Item {
    /// The game's item identifier.
    pub id: String,
    /// How many of them.
    pub count: u8,
    /// Item metadata, if any.
    pub tag: Option<ItemTag>,
}

/// The item tags the report cares about.
#[derive(Debug, Clone)]
pub struct ItemTag {
    pub unbreakable: Option<u8>,
    pub enchantments: Option<Vec<EnchantmentTag>>,
    pub stored_enchantments: Option<Vec<EnchantmentTag>>,
    pub custom_potion_effects: Option<Vec<PotionEffectTag>>,
    pub potion: Option<String>,
    pub display: Option<DisplayTag>,
}

/// An enchantment applied to an item.
#[derive(Debug, Clone)]
pub struct EnchantmentTag {
    pub id: String,
    pub lvl: u32,
}

/// A potion effect, ignoring display-related fields.
#[derive(Debug, Clone)]
pub struct PotionEffectTag {
    pub id: u8,
    pub amplifier: i8,
    pub duration: u32,
}

/// The display tag of an item.
#[derive(Debug, Clone)]
pub struct DisplayTag {
    pub name: Option<String>,
    pub lore: Option<Vec<String>>,
}

/// Content equality of strings: same characters.
pub open spec fn string_eq(a: String, b: String) -> bool {
    a@ == b@
}

pub open spec fn opt_string_eq(a: Option<String>, b: Option<String>) -> bool {
    match (a, b) {
        (Option::None, Option::None) => true,
        (Option::Some(x), Option::Some(y)) => string_eq(x, y),
        _ => false,
    }
}

pub open spec fn enchantment_eq(a: EnchantmentTag, b: EnchantmentTag) -> bool {
    string_eq(a.id, b.id) && a.lvl == b.lvl
}

pub open spec fn enchantments_eq(a: Seq<EnchantmentTag>, b: Seq<EnchantmentTag>) -> bool {
    a.len() == b.len() && forall|i: int| 0 <= i < a.len() ==> enchantment_eq(#[trigger] a[i], b[i])
}

pub open spec fn opt_enchantments_eq(
    a: Option<Vec<EnchantmentTag>>,
    b: Option<Vec<EnchantmentTag>>,
) -> bool {
    match (a, b) {
        (Option::None, Option::None) => true,
        (Option::Some(x), Option::Some(y)) => enchantments_eq(x@, y@),
        _ => false,
    }
}

pub open spec fn potion_effects_eq(a: Seq<PotionEffectTag>, b: Seq<PotionEffectTag>) -> bool {
    a.len() == b.len() && forall|i: int|
        0 <= i < a.len() ==> {
            &&& (#[trigger] a[i]).id == b[i].id
            &&& a[i].amplifier == b[i].amplifier
            &&& a[i].duration == b[i].duration
        }
}

pub open spec fn opt_potion_effects_eq(
    a: Option<Vec<PotionEffectTag>>,
    b: Option<Vec<PotionEffectTag>>,
) -> bool {
    match (a, b) {
        (Option::None, Option::None) => true,
        (Option::Some(x), Option::Some(y)) => potion_effects_eq(x@, y@),
        _ => false,
    }
}

pub open spec fn strings_eq(a: Seq<String>, b: Seq<String>) -> bool {
    a.len() == b.len() && forall|i: int| 0 <= i < a.len() ==> string_eq(#[trigger] a[i], b[i])
}

pub open spec fn opt_strings_eq(a: Option<Vec<String>>, b: Option<Vec<String>>) -> bool {
    match (a, b) {
        (Option::None, Option::None) => true,
        (Option::Some(x), Option::Some(y)) => strings_eq(x@, y@),
        _ => false,
    }
}

pub open spec fn display_tag_eq(a: DisplayTag, b: DisplayTag) -> bool {
    opt_string_eq(a.name, b.name) && opt_strings_eq(a.lore, b.lore)
}

pub open spec fn opt_display_tag_eq(a: Option<DisplayTag>, b: Option<DisplayTag>) -> bool {
    match (a, b) {
        (Option::None, Option::None) => true,
        (Option::Some(x), Option::Some(y)) => display_tag_eq(x, y),
        _ => false,
    }
}

pub open spec fn item_tag_eq(a: ItemTag, b: ItemTag) -> bool {
    &&& a.unbreakable == b.unbreakable
    &&& opt_enchantments_eq(a.enchantments, b.enchantments)
    &&& opt_enchantments_eq(a.stored_enchantments, b.stored_enchantments)
    &&& opt_potion_effects_eq(a.custom_potion_effects, b.custom_potion_effects)
    &&& opt_string_eq(a.potion, b.potion)
    &&& opt_display_tag_eq(a.display, b.display)
}

pub open spec fn opt_item_tag_eq(a: Option<ItemTag>, b: Option<ItemTag>) -> bool {
    match (a, b) {
        (Option::None, Option::None) => true,
        (Option::Some(x), Option::Some(y)) => item_tag_eq(x, y),
        _ => false,
    }
}

/// Structural content equality of items, the relation under which two
/// damage causes carry the same weapon.
pub open spec fn item_eq(a: Item, b: Item) -> bool {
    string_eq(a.id, b.id) && a.count == b.count && opt_item_tag_eq(a.tag, b.tag)
}

pub open spec fn opt_item_eq(a: Option<Item>, b: Option<Item>) -> bool {
    match (a, b) {
        (Option::None, Option::None) => true,
        (Option::Some(x), Option::Some(y)) => item_eq(x, y),
        _ => false,
    }
}

fn eq_opt_string(a: &Option<String>, b: &Option<String>) -> (r: bool)
    ensures
        r == opt_string_eq(*a, *b),
{
    match (a, b) {
        (Option::None, Option::None) => true,
        (Option::Some(x), Option::Some(y)) => str_eq(x.as_str(), y.as_str()),
        _ => false,
    }
}

fn eq_enchantments(a: &Vec<EnchantmentTag>, b: &Vec<EnchantmentTag>) -> (r: bool)
    ensures
        r == enchantments_eq(a@, b@),
{
    if a.len() != b.len() {
        return false;
    }
    let mut i: usize = 0;
    while i < a.len()
        invariant
            i <= a@.len(),
            a@.len() == b@.len(),
            forall|j: int| 0 <= j < i ==> enchantment_eq(#[trigger] a@[j], b@[j]),
        decreases a@.len() - i,
    {
        if !str_eq(a[i].id.as_str(), b[i].id.as_str()) || a[i].lvl != b[i].lvl {
            return false;
        }
        i = i + 1;
    }
    true
}

fn eq_opt_enchantments(a: &Option<Vec<EnchantmentTag>>, b: &Option<Vec<EnchantmentTag>>) -> (r:
    bool)
    ensures
        r == opt_enchantments_eq(*a, *b),
{
    match (a, b) {
        (Option::None, Option::None) => true,
        (Option::Some(x), Option::Some(y)) => eq_enchantments(x, y),
        _ => false,
    }
}

fn eq_opt_potion_effects(a: &Option<Vec<PotionEffectTag>>, b: &Option<Vec<PotionEffectTag>>) -> (r:
    bool)
    ensures
        r == opt_potion_effects_eq(*a, *b),
{
    match (a, b) {
        (Option::None, Option::None) => true,
        (Option::Some(x), Option::Some(y)) => eq_potion_effects(x, y),
        _ => false,
    }
}

fn eq_potion_effects(a: &Vec<PotionEffectTag>, b: &Vec<PotionEffectTag>) -> (r: bool)
    ensures
        r == potion_effects_eq(a@, b@),
{
    if a.len() != b.len() {
        return false;
    }
    let mut i: usize = 0;
    while i < a.len()
        invariant
            i <= a@.len(),
            a@.len() == b@.len(),
            forall|j: int|
                0 <= j < i ==> {
                    &&& (#[trigger] a@[j]).id == b@[j].id
                    &&& a@[j].amplifier == b@[j].amplifier
                    &&& a@[j].duration == b@[j].duration
                },
        decreases a@.len() - i,
    {
        if a[i].id != b[i].id || a[i].amplifier != b[i].amplifier || a[i].duration
            != b[i].duration {
            proof {
                assert(!potion_effects_eq(a@, b@)) by {
                    assert(!((#[trigger] a@[i as int]).id == b@[i as int].id
                        && a@[i as int].amplifier == b@[i as int].amplifier
                        && a@[i as int].duration == b@[i as int].duration));
                }
            }
            return false;
        }
        i = i + 1;
    }
    true
}

fn eq_opt_strings(a: &Option<Vec<String>>, b: &Option<Vec<String>>) -> (r: bool)
    ensures
        r == opt_strings_eq(*a, *b),
{
    match (a, b) {
        (Option::None, Option::None) => true,
        (Option::Some(x), Option::Some(y)) => eq_strings(x, y),
        _ => false,
    }
}

fn eq_strings(a: &Vec<String>, b: &Vec<String>) -> (r: bool)
    ensures
        r == strings_eq(a@, b@),
{
    if a.len() != b.len() {
        return false;
    }
    let mut i: usize = 0;
    while i < a.len()
        invariant
            i <= a@.len(),
            a@.len() == b@.len(),
            forall|j: int| 0 <= j < i ==> string_eq(#[trigger] a@[j], b@[j]),
        decreases a@.len() - i,
    {
        if !str_eq(a[i].as_str(), b[i].as_str()) {
            proof {
                assert(!strings_eq(a@, b@)) by {
                    assert(!string_eq(#[trigger] a@[i as int], b@[i as int]));
                }
            }
            return false;
        }
        i = i + 1;
    }
    true
}

fn eq_opt_display_tag(a: &Option<DisplayTag>, b: &Option<DisplayTag>) -> (r: bool)
    ensures
        r == opt_display_tag_eq(*a, *b),
{
    match (a, b) {
        (Option::None, Option::None) => true,
        (Option::Some(x), Option::Some(y)) => eq_opt_string(&x.name, &y.name) && eq_opt_strings(
            &x.lore,
            &y.lore,
        ),
        _ => false,
    }
}

fn eq_opt_item_tag(a: &Option<ItemTag>, b: &Option<ItemTag>) -> (r: bool)
    ensures
        r == opt_item_tag_eq(*a, *b),
{
    match (a, b) {
        (Option::None, Option::None) => true,
        (Option::Some(x), Option::Some(y)) => {
            if x.unbreakable != y.unbreakable {
                return false;
            }
            if !eq_opt_enchantments(&x.enchantments, &y.enchantments) {
                return false;
            }
            if !eq_opt_enchantments(&x.stored_enchantments, &y.stored_enchantments) {
                return false;
            }
            if !eq_opt_potion_effects(&x.custom_potion_effects, &y.custom_potion_effects) {
                return false;
            }
            if !eq_opt_string(&x.potion, &y.potion) {
                return false;
            }
            eq_opt_display_tag(&x.display, &y.display)
        },
        _ => false,
    }
}

impl Item {
    /// Whether two items have the same content (identifier, count and tags).
    pub fn content_eq(&self, other: &Item) -> (r: bool)
        ensures
            r == item_eq(*self, *other),
    {
        str_eq(self.id.as_str(), other.id.as_str()) && self.count == other.count && eq_opt_item_tag(
            &self.tag,
            &other.tag,
        )
    }
}

fn clone_opt_string(a: &Option<String>) -> (r: Option<String>)
    ensures
        r == *a,
{
    match a {
        Option::Some(s) => Option::Some(s.clone()),
        Option::None => Option::None,
    }
}

fn clone_enchantments(v: &Vec<EnchantmentTag>) -> (r: Vec<EnchantmentTag>)
    ensures
        r@ == v@,
{
    let mut r: Vec<EnchantmentTag> = Vec::new();
    let mut i: usize = 0;
    while i < v.len()
        invariant
            i <= v@.len(),
            r@ == v@.take(i as int),
        decreases v@.len() - i,
    {
        r.push(EnchantmentTag { id: v[i].id.clone(), lvl: v[i].lvl });
        i = i + 1;
        proof {
            assert(r@ =~= v@.take(i as int));
        }
    }
    proof {
        assert(r@ =~= v@);
    }
    r
}

fn clone_potion_effects(v: &Vec<PotionEffectTag>) -> (r: Vec<PotionEffectTag>)
    ensures
        r@ == v@,
{
    let mut r: Vec<PotionEffectTag> = Vec::new();
    let mut i: usize = 0;
    while i < v.len()
        invariant
            i <= v@.len(),
            r@ == v@.take(i as int),
        decreases v@.len() - i,
    {
        r.push(
            PotionEffectTag {
                id: v[i].id,
                amplifier: v[i].amplifier,
                duration: v[i].duration,
            },
        );
        i = i + 1;
        proof {
            assert(r@ =~= v@.take(i as int));
        }
    }
    proof {
        assert(r@ =~= v@);
    }
    r
}

fn clone_strings(v: &Vec<String>) -> (r: Vec<String>)
    ensures
        r@ == v@,
{
    let mut r: Vec<String> = Vec::new();
    let mut i: usize = 0;
    while i < v.len()
        invariant
            i <= v@.len(),
            r@ == v@.take(i as int),
        decreases v@.len() - i,
    {
        r.push(v[i].clone());
        i = i + 1;
        proof {
            assert(r@ =~= v@.take(i as int));
        }
    }
    proof {
        assert(r@ =~= v@);
    }
    r
}

impl Item {
    /// A fresh item with the same content.
    pub fn deep_clone(&self) -> (r: Item)
        ensures
            item_eq(r, *self),
    {
        let tag = match &self.tag {
            Option::None => Option::None,
            Option::Some(t) => {
                let enchantments = match &t.enchantments {
                    Option::Some(v) => Option::Some(clone_enchantments(v)),
                    Option::None => Option::None,
                };
                let stored_enchantments = match &t.stored_enchantments {
                    Option::Some(v) => Option::Some(clone_enchantments(v)),
                    Option::None => Option::None,
                };
                let custom_potion_effects = match &t.custom_potion_effects {
                    Option::Some(v) => Option::Some(clone_potion_effects(v)),
                    Option::None => Option::None,
                };
                let display = match &t.display {
                    Option::Some(d) => Option::Some(
                        DisplayTag {
                            name: clone_opt_string(&d.name),
                            lore: match &d.lore {
                                Option::Some(v) => Option::Some(clone_strings(v)),
                                Option::None => Option::None,
                            },
                        },
                    ),
                    Option::None => Option::None,
                };
                Option::Some(
                    ItemTag {
                        unbreakable: t.unbreakable,
                        enchantments,
                        stored_enchantments,
                        custom_potion_effects,
                        potion: clone_opt_string(&t.potion),
                        display,
                    },
                )
            },
        };
        Item { id: self.id.clone(), count: self.count, tag }
    }
}

/// A fresh optional weapon with the same content.
pub fn clone_opt_item(a: &Option<Item>) -> (r: Option<Item>)
    ensures
        opt_item_eq(r, *a),
{
    match a {
        Option::Some(x) => Option::Some(x.deep_clone()),
        Option::None => Option::None,
    }
}

/// Whether two optional weapons have the same content.
pub fn eq_opt_item(a: &Option<Item>, b: &Option<Item>) -> (r: bool)
    ensures
        r == opt_item_eq(*a, *b),
{
    match (a, b) {
        (Option::None, Option::None) => true,
        (Option::Some(x), Option::Some(y)) => x.content_eq(y),
        _ => false,
    }
}

} // verus!
