//! The characters that the player does not control.

use vstd::prelude::*;
use vstd::string::StringSliceAdditionalSpecFns;
use crate::appearance::{Color, Renderable};
use crate::common::{CharacterStats, Description};
use crate::random::next_random;

verus! {

/// The base64 text, in the standard alphabet with padding, of the UTF-8
/// bytes of a text.
pub uninterp spec fn base64_of(text: Seq<char>) -> Seq<char>;

/// The longest text, in bytes, that is handed to the encoder: four thirds
/// of it, rounded up to a multiple of four, can still be counted.
pub const MAX_ENCODED_INPUT: usize = 0x3FFF_FFFF;

/// Whether a text is short enough to be encoded, by its length in bytes as
/// `str::len` reports it.
pub open spec fn encodable(text: &str) -> bool {
    (text.spec_bytes().len() as usize) <= MAX_ENCODED_INPUT
}

/// Encodes a text with `base64::encode`: the result is the base64 text of
/// its bytes. The encoder does not return where the length of its output
/// cannot be counted, so longer texts are left out.
#[verifier::external_body]
fn base64_text(text: &str) -> (encoded: String)
    requires
        encodable(text),
    ensures
        encoded@ == base64_of(text@),
{
    base64::encode(text)
}

/// The kinds of characters.
#[derive(Copy, Clone, Debug, PartialEq, Eq, Structural)]
pub enum NpcInstance {
    Guard,
    Grunt,
    Accountant,
    Technician,
}

/// A character that the player does not control.
#[derive(Copy, Clone, Debug, PartialEq, Eq, Structural)]
pub struct Npc {
    pub instance: NpcInstance,
}

/// Number of names that a character can have.
pub const NAMES: u32 = 11;

/// The names that a character can have.
pub open spec fn npc_name(i: int) -> Seq<char> {
    if i == 0 {
        "Chopra"@
    } else if i == 1 {
        "Nagata"@
    } else if i == 2 {
        "Deep-Ando"@
    } else if i == 3 {
        "Walker"@
    } else if i == 4 {
        "Spike"@
    } else if i == 5 {
        "Rex"@
    } else if i == 6 {
        "Troy"@
    } else if i == 7 {
        "Del"@
    } else if i == 8 {
        "Dash"@
    } else if i == 9 {
        "Proto"@
    } else {
        "Ogura"@
    }
}

/// The word for a kind of character.
pub open spec fn role_of(instance: NpcInstance) -> Seq<char> {
    match instance {
        NpcInstance::Guard => "Guard"@,
        NpcInstance::Grunt => "Grunt"@,
        NpcInstance::Accountant => "Accountant"@,
        NpcInstance::Technician => "Technician"@,
    }
}

/// The name under which a character of a kind goes: a grunt goes by the
/// base64 text of its name.
pub open spec fn shown_name(instance: NpcInstance, name: Seq<char>) -> Seq<char> {
    match instance {
        NpcInstance::Grunt => base64_of(name),
        _ => name,
    }
}

impl Npc {
    /// How the character is drawn.
    pub fn get_renderable(&self) -> (r: Renderable)
        ensures
            r == match self.instance {
                NpcInstance::Guard => Renderable { character: 'G', color: Color::Orange },
                NpcInstance::Grunt => Renderable { character: 'g', color: Color::Orange },
                NpcInstance::Accountant => Renderable { character: 'a', color: Color::Grey },
                NpcInstance::Technician => Renderable { character: 'T', color: Color::Yellow },
            },
    {
        match self.instance {
            NpcInstance::Guard => Renderable { character: 'G', color: Color::Orange },
            NpcInstance::Grunt => Renderable { character: 'g', color: Color::Orange },
            NpcInstance::Accountant => Renderable { character: 'a', color: Color::Grey },
            NpcInstance::Technician => Renderable { character: 'T', color: Color::Yellow },
        }
    }

    /// The name that a draw selects: the draw modulo the number of names.
    pub fn pick_name(draw: u32) -> (name: &'static str)
        ensures
            name@ == npc_name((draw % NAMES) as int),
            encodable(name),
    {
        proof {
            reveal_strlit("Chopra");
            reveal_strlit("Nagata");
            reveal_strlit("Deep-Ando");
            reveal_strlit("Walker");
            reveal_strlit("Spike");
            reveal_strlit("Rex");
            reveal_strlit("Troy");
            reveal_strlit("Del");
            reveal_strlit("Dash");
            reveal_strlit("Proto");
            reveal_strlit("Ogura");
        }
        let i = draw % NAMES;
        let name = Npc::name_at(i);
        proof {
            assert(vstd::string::is_ascii(name)) by {
                assert forall|k: int| 0 <= k < name@.len() implies (name@[k] as u32) < 128 by {}
            }
            vstd::string::is_ascii_spec_bytes(name);
        }
        name
    }

    /// The `i`-th of the names that a character can have.
    fn name_at(i: u32) -> (name: &'static str)
        requires
            i < NAMES,
        ensures
            name@ == npc_name(i as int),
    {
        if i == 0 {
            "Chopra"
        } else if i == 1 {
            "Nagata"
        } else if i == 2 {
            "Deep-Ando"
        } else if i == 3 {
            "Walker"
        } else if i == 4 {
            "Spike"
        } else if i == 5 {
            "Rex"
        } else if i == 6 {
            "Troy"
        } else if i == 7 {
            "Del"
        } else if i == 8 {
            "Dash"
        } else if i == 9 {
            "Proto"
        } else {
            "Ogura"
        }
    }

    /// A name drawn at random: one of the names that a character can have.
    pub fn name(rng: &mut rand::ThreadRng) -> (name: &'static str)
        ensures
            exists|i: int| 0 <= i < NAMES && name@ == #[trigger] npc_name(i),
            encodable(name),
    {
        let draw = next_random(rng);
        let name = Npc::pick_name(draw);
        assert(name@ == npc_name((draw % NAMES) as int));
        name
    }

    /// The description of the character under the name given, where the
    /// name is short enough to be encoded; none where it is not.
    pub fn try_describe(&self, name: &str) -> (r: Option<Description>)
        ensures
            r.is_some() == encodable(name),
            r.is_some() ==> r.unwrap().name@ == shown_name(self.instance, name@)
                && r.unwrap().description@ == role_of(self.instance),
    {
        if name.len() <= MAX_ENCODED_INPUT {
            Some(self.describe(name))
        } else {
            None
        }
    }

    /// The description of the character under the name given.
    pub fn describe(&self, name: &str) -> (d: Description)
        requires
            encodable(name),
        ensures
            d.name@ == shown_name(self.instance, name@),
            d.description@ == role_of(self.instance),
    {
        match self.instance {
            NpcInstance::Guard => Description::new(name, "Guard"),
            NpcInstance::Grunt => {
                let encoded = base64_text(name);
                Description::new(encoded.as_str(), "Grunt")
            },
            NpcInstance::Accountant => Description::new(name, "Accountant"),
            NpcInstance::Technician => Description::new(name, "Technician"),
        }
    }

    /// The description of the character under a name drawn at random.
    pub fn get_description(&self, rng: &mut rand::ThreadRng) -> (d: Description)
        ensures
            d.description@ == role_of(self.instance),
            exists|i: int|
                0 <= i < NAMES && d.name@ == shown_name(self.instance, #[trigger] npc_name(i)),
    {
        let name = Npc::name(rng);
        self.describe(name)
    }

    /// The hit points that a character starts with.
    pub fn get_stats(&self) -> (s: CharacterStats)
        ensures
            s == (CharacterStats { health: 100, max_health: 100 }),
    {
        CharacterStats { health: 100, max_health: 100 }
    }
}

} // verus!
