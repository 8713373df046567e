//! Fixed strings of the save format: structural keys and line terminators.

use vstd::prelude::*;

verus! {

/// Top-level key whose object holds every entity group.
pub const TI_GAMESTATES: &'static str = "gamestates";

/// Field of an entity record that carries the reference to the entity's own ID.
pub const TI_FIELD_KEY_CAP: &'static str = "Key";

/// Field of an entity record that carries the entity's property map.
pub const TI_FIELD_VALUE_CAP: &'static str = "Value";

/// Field of a relational reference that carries the target ID.
pub const TI_REF_FIELD_VALUE: &'static str = "value";

/// Optional type tag of a relational reference.
pub const TI_REF_FIELD_TYPE: &'static str = "$type";

/// Property names tried, in this order, for an entity's display name.
pub const TI_PROP_DISPLAY_NAME: &'static str = "displayName";

pub const TI_PROP_NAME: &'static str = "name";

pub const TI_PROP_EVENT_NAME: &'static str = "eventName";

/// Top-level key of the reference that identifies the save.
pub const TI_PROP_CURRENT_ID: &'static str = "currentID";

/// Name-related properties of councilors and other entities.
pub const TI_PROP_FAMILY_NAME: &'static str = "familyName";

pub const TI_PROP_PERSONAL_NAME: &'static str = "personalName";

/// The public-opinion property of nations and its outcome keys.
pub const TI_PROP_PUBLIC_OPINION: &'static str = "publicOpinion";

pub const TI_PUBLIC_OPINION_UNDECIDED: &'static str = "Undecided";

pub const TI_PUBLIC_OPINION_SUBMIT: &'static str = "Submit";

pub const TI_PUBLIC_OPINION_COOPERATE: &'static str = "Cooperate";

pub const TI_PUBLIC_OPINION_EXPLOIT: &'static str = "Exploit";

pub const TI_PUBLIC_OPINION_ESCAPE: &'static str = "Escape";

pub const TI_PUBLIC_OPINION_RESIST: &'static str = "Resist";

pub const TI_PUBLIC_OPINION_DESTROY: &'static str = "Destroy";

/// Prefix that most group names share.
pub const TI_COMMON_NAMESPACE: &'static str = "PavonisInteractive.TerraInvicta.";

/// Group of the councilors.
pub const TI_GROUP_COUNCILOR_STATE: &'static str =
    "PavonisInteractive.TerraInvicta.TICouncilorState";

/// Line terminators that a save file may use.
pub const NL_LF: &'static str = "\n";

pub const NL_CRLF: &'static str = "\r\n";

} // verus!
