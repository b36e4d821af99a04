//! The things that can be carried.

use vstd::prelude::*;
use vstd::string::StringExecFns;
use crate::appearance::{Color, Renderable};
use crate::common::{Description, ItemStats};
use crate::text::{decimal, decimal_of};

verus! {

/// What an item is for.
#[derive(Copy, Clone, Debug, PartialEq, Eq, Structural)]
pub enum Type {
    Item,
    Consumable,
    Equipment,
    Weapon,
}

/// How rare an item is.
#[derive(Copy, Clone, Debug, PartialEq, Eq, Structural)]
pub enum Rarity {
    Common,
    Uncommon,
    Rare,
    Unique,
    Epic,
}

/// The items of the game. A key card opens doors up to its level.
#[derive(Copy, Clone, Debug, PartialEq, Eq, Hash, Structural)]
pub enum ItemInstance {
    DartGun,
    KeyCard(i32),
    FlickKnife,
    HitachiRam,
    Lighter,
    Manriki,
    PocketVtr,
    GasMask,
    Shuriken,
    Simstim,
    Watch,
}

/// An item.
#[derive(Copy, Clone, Debug, PartialEq, Eq, Structural)]
pub struct Item {
    pub instance: ItemInstance,
}

/// Rarity and purpose of an item.
pub open spec fn kind_of(instance: ItemInstance) -> (Rarity, Type) {
    match instance {
        ItemInstance::Lighter | ItemInstance::Watch => (Rarity::Common, Type::Item),
        ItemInstance::FlickKnife => (Rarity::Common, Type::Weapon),
        ItemInstance::PocketVtr | ItemInstance::GasMask => (Rarity::Uncommon, Type::Equipment),
        ItemInstance::Manriki | ItemInstance::Shuriken => (Rarity::Uncommon, Type::Weapon),
        ItemInstance::Simstim => (Rarity::Rare, Type::Equipment),
        ItemInstance::DartGun => (Rarity::Rare, Type::Weapon),
        ItemInstance::HitachiRam => (Rarity::Epic, Type::Item),
        ItemInstance::KeyCard(level) => if 3 <= level <= 5 {
            (Rarity::Uncommon, Type::Equipment)
        } else if 6 <= level <= 8 {
            (Rarity::Rare, Type::Equipment)
        } else {
            (Rarity::Common, Type::Equipment)
        },
    }
}

/// Damage and range of an item that is a weapon.
pub open spec fn stats_of(instance: ItemInstance) -> Option<ItemStats> {
    match instance {
        ItemInstance::FlickKnife => Some(ItemStats { damage: 20, range: 1 }),
        ItemInstance::Shuriken => Some(ItemStats { damage: 20, range: 5 }),
        ItemInstance::Manriki => Some(ItemStats { damage: 40, range: 2 }),
        ItemInstance::DartGun => Some(ItemStats { damage: 80, range: 10 }),
        _ => None,
    }
}

/// The character of an item: the initial of its purpose.
pub open spec fn type_char(t: Type) -> char {
    match t {
        Type::Item => 'i',
        Type::Consumable => 'c',
        Type::Equipment => 'e',
        Type::Weapon => 'w',
    }
}

/// The colour of an item, by its rarity.
pub open spec fn rarity_color(r: Rarity) -> Color {
    match r {
        Rarity::Common => Color::Grey,
        Rarity::Uncommon => Color::Green,
        Rarity::Rare => Color::Blue,
        Rarity::Unique => Color::Purple,
        Rarity::Epic => Color::Gold,
    }
}

/// The name of an item.
pub open spec fn name_of(instance: ItemInstance) -> Seq<char> {
    match instance {
        ItemInstance::DartGun => "Dart gun"@,
        ItemInstance::FlickKnife => "Flick knife"@,
        ItemInstance::HitachiRam => "Hitachi HR 5MB RAM"@,
        ItemInstance::Lighter => "Lighter"@,
        ItemInstance::Manriki => "Weighted manriki chains"@,
        ItemInstance::PocketVtr => "Pocket VTR"@,
        ItemInstance::GasMask => "Gas Mask"@,
        ItemInstance::Shuriken => "Shuriken"@,
        ItemInstance::Simstim => "Simstim deck"@,
        ItemInstance::Watch => "Watch"@,
        ItemInstance::KeyCard(level) => "Level "@ + decimal_of(level as int) + " keycard"@,
    }
}

/// The line about an item.
pub open spec fn text_of(instance: ItemInstance) -> Seq<char> {
    match instance {
        ItemInstance::DartGun => "Chinese dan-inject dart gun with a label stating \"Property of Jiuzhaigou Horse Conservative\""@,
        ItemInstance::FlickKnife => ""@,
        ItemInstance::HitachiRam => "Adds 15 million characters of high speed random access memory. Only compatible with the Hitachi Z-80 main frame."@,
        ItemInstance::Lighter => "A cerosine fueled lighter"@,
        ItemInstance::Manriki => "The thousand power chain of ancient japanese, made from old german steel."@,
        ItemInstance::PocketVtr => "Handheld video tape recording device"@,
        ItemInstance::GasMask => "A traditional japanese gas mask"@,
        ItemInstance::Shuriken => "A traditional japanese conceiled weapon"@,
        ItemInstance::Simstim => "Remotly simulates stimuli captured from another person to the wearer"@,
        ItemInstance::Watch => "A plastic watch"@,
        ItemInstance::KeyCard(level) => "A plastic keycard giving access to security level "@
            + decimal_of(level as int),
    }
}

impl Item {
    pub fn get_renderable(&self) -> (r: Renderable)
        ensures
            r.character == type_char(kind_of(self.instance).1),
            r.color == rarity_color(kind_of(self.instance).0),
    {
        let (r, t) = self.get_type();
        Renderable::new(
            match t {
                Type::Item => 'i',
                Type::Consumable => 'c',
                Type::Equipment => 'e',
                Type::Weapon => 'w',
            },
            match r {
                Rarity::Common => Color::Grey,
                Rarity::Uncommon => Color::Green,
                Rarity::Rare => Color::Blue,
                Rarity::Unique => Color::Purple,
                Rarity::Epic => Color::Gold,
            },
        )
    }

    pub fn get_stats(&self) -> (s: Option<ItemStats>)
        ensures
            s == stats_of(self.instance),
    {
        match self.instance {
            ItemInstance::FlickKnife => Some(ItemStats { damage: 20, range: 1 }),
            ItemInstance::Shuriken => Some(ItemStats { damage: 20, range: 5 }),
            ItemInstance::Manriki => Some(ItemStats { damage: 40, range: 2 }),
            ItemInstance::DartGun => Some(ItemStats { damage: 80, range: 10 }),
            _ => None,
        }
    }

    pub fn get_type(&self) -> (k: (Rarity, Type))
        ensures
            k == kind_of(self.instance),
    {
        match self.instance {
            ItemInstance::Lighter | ItemInstance::Watch => (Rarity::Common, Type::Item),
            ItemInstance::FlickKnife => (Rarity::Common, Type::Weapon),
            ItemInstance::PocketVtr | ItemInstance::GasMask => (Rarity::Uncommon, Type::Equipment),
            ItemInstance::Manriki | ItemInstance::Shuriken => (Rarity::Uncommon, Type::Weapon),
            ItemInstance::Simstim => (Rarity::Rare, Type::Equipment),
            ItemInstance::DartGun => (Rarity::Rare, Type::Weapon),
            ItemInstance::HitachiRam => (Rarity::Epic, Type::Item),
            ItemInstance::KeyCard(level) => {
                if level >= 3 && level <= 5 {
                    (Rarity::Uncommon, Type::Equipment)
                } else if level >= 6 && level <= 8 {
                    (Rarity::Rare, Type::Equipment)
                } else {
                    (Rarity::Common, Type::Equipment)
                }
            },
        }
    }

    pub fn get_description(&self) -> (d: Description)
        ensures
            d.name@ == name_of(self.instance),
            d.description@ == text_of(self.instance),
    {
        match self.instance {
            ItemInstance::DartGun => Description::new(
                "Dart gun",
                "Chinese dan-inject dart gun with a label stating \"Property of Jiuzhaigou Horse Conservative\"",
            ),
            ItemInstance::FlickKnife => Description::new("Flick knife", ""),
            ItemInstance::HitachiRam => Description::new(
                "Hitachi HR 5MB RAM",
                "Adds 15 million characters of high speed random access memory. Only compatible with the Hitachi Z-80 main frame.",
            ),
            ItemInstance::Lighter => Description::new("Lighter", "A cerosine fueled lighter"),
            ItemInstance::Manriki => Description::new(
                "Weighted manriki chains",
                "The thousand power chain of ancient japanese, made from old german steel.",
            ),
            ItemInstance::PocketVtr => Description::new(
                "Pocket VTR",
                "Handheld video tape recording device",
            ),
            ItemInstance::GasMask => Description::new("Gas Mask", "A traditional japanese gas mask"),
            ItemInstance::Shuriken => Description::new(
                "Shuriken",
                "A traditional japanese conceiled weapon",
            ),
            ItemInstance::Simstim => Description::new(
                "Simstim deck",
                "Remotly simulates stimuli captured from another person to the wearer",
            ),
            ItemInstance::Watch => Description::new("Watch", "A plastic watch"),
            ItemInstance::KeyCard(level) => {
                let number = decimal(level as i64);
                let name = String::from_str("Level ").concat(number.as_str()).concat(" keycard");
                let text = String::from_str(
                    "A plastic keycard giving access to security level ",
                ).concat(number.as_str());
                Description { name, description: text }
            },
        }
    }
}

} // verus!
