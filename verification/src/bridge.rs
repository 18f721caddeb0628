//! The command bridge: messages from the control surface become typed
//! actions, and each action becomes a change of the threshold and a list of
//! things for the host and the surface to do.

use crate::json::{
    double_of, json_document, json_double, json_member, json_string, json_unsigned, member,
    read_document, string_of, unsigned_of,
};
use crate::parameter::{Parameter, ParameterModel};
use crate::units::{clamp, clamp_to, double_is_nan, double_raw, raw_from_double, ONE};
use vstd::prelude::*;

verus! {

/// What the control surface asks for.
#[derive(Clone, Copy, Debug, PartialEq, Eq, Structural)]
pub enum Action {
    /// Tell the surface its current size.
    Init,
    /// Resize the surface's viewport.
    SetSize { width: u32, height: u32 },
    /// Set the threshold to this normalized raw value.
    SetThreshold { value: i64 },
    /// Open the maker's website.
    OpenWebsite,
}

/// Why a message is no action.
#[derive(Clone, Copy, Debug, PartialEq, Eq, Structural)]
pub enum ParseError {
    /// The message is no JSON document.
    Malformed,
    /// The message has no member `type` that is a string.
    MissingType,
    /// The member `type` names no action.
    UnknownType,
    /// A member that the action needs is missing or of the wrong kind.
    BadField,
}

/// Size of the control surface's viewport.
#[derive(Clone, Copy, Debug, PartialEq, Eq, Structural)]
pub struct Viewport {
    pub width: u32,
    pub height: u32,
}

/// One thing for the host or the control surface to do.
#[derive(Clone, Copy, Debug, PartialEq, Eq, Structural)]
pub enum Effect {
    /// Tell the host that an edit of the threshold begins.
    BeginGesture,
    /// Hand the host this normalized raw value of the threshold.
    WriteNormalized { value: i64 },
    /// Tell the host that the edit of the threshold has ended.
    EndGesture,
    /// Resize the surface's viewport.
    Resize { width: u32, height: u32 },
    /// Send the surface a `set_size` message.
    NotifySize { width: u32, height: u32 },
    /// Send the surface a `set_threshold` message with this normalized raw
    /// value.
    NotifyThreshold { value: i64 },
    /// Open the maker's website.
    OpenLink,
}

/// The action that a message's members spell. `tag` is the text of the member
/// `type`, `width` and `height` are those members as unsigned integers, and
/// `value` holds the bits of the double of the member `value`; each is
/// `None` where the member is missing or of another kind.
pub open spec fn action_of(
    tag: Option<Seq<char>>,
    width: Option<u64>,
    height: Option<u64>,
    value: Option<u64>,
) -> Result<Action, ParseError> {
    match tag {
        None => Err(ParseError::MissingType),
        Some(name) => if name =~= "Init"@ {
            Ok(Action::Init)
        } else if name =~= "SetSize"@ {
            match (width, height) {
                (Some(w), Some(h)) => if w <= u32::MAX && h <= u32::MAX {
                    Ok(Action::SetSize { width: w as u32, height: h as u32 })
                } else {
                    Err(ParseError::BadField)
                },
                _ => Err(ParseError::BadField),
            }
        } else if name =~= "SetThreshold"@ {
            match value {
                Some(bits) => if double_is_nan(bits) {
                    Err(ParseError::BadField)
                } else {
                    Ok(Action::SetThreshold { value: double_raw(bits) as i64 })
                },
                None => Err(ParseError::BadField),
            }
        } else if name =~= "OpenWebsite"@ {
            Ok(Action::OpenWebsite)
        } else {
            Err(ParseError::UnknownType)
        },
    }
}

/// The view of an optional text.
pub open spec fn text_view(text: Option<&str>) -> Option<Seq<char>> {
    match text {
        Some(t) => Some(t@),
        None => None,
    }
}

fn same_text(a: &str, b: &str) -> (same: bool)
    ensures
        same == (a@ == b@),
{
    let left: String = a.to_owned();
    let right: String = b.to_owned();
    left == right
}

/// Builds the action that a message's members spell.
pub fn action_from_fields(
    tag: Option<&str>,
    width: Option<u64>,
    height: Option<u64>,
    value: Option<u64>,
) -> (r: Result<Action, ParseError>)
    ensures
        r == action_of(text_view(tag), width, height, value),
{
    let name = match tag {
        Some(name) => name,
        None => {
            return Err(ParseError::MissingType);
        },
    };
    if same_text(name, "Init") {
        Ok(Action::Init)
    } else if same_text(name, "SetSize") {
        match (width, height) {
            (Some(w), Some(h)) => {
                if w <= 0xffff_ffff && h <= 0xffff_ffff {
                    Ok(Action::SetSize { width: w as u32, height: h as u32 })
                } else {
                    Err(ParseError::BadField)
                }
            },
            _ => Err(ParseError::BadField),
        }
    } else if same_text(name, "SetThreshold") {
        match value {
            Some(bits) => match raw_from_double(bits) {
                Some(raw) => Ok(Action::SetThreshold { value: raw }),
                None => Err(ParseError::BadField),
            },
            None => Err(ParseError::BadField),
        }
    } else if same_text(name, "OpenWebsite") {
        Ok(Action::OpenWebsite)
    } else {
        Err(ParseError::UnknownType)
    }
}

/// The text of the member `key` of `doc`, if it is a string.
pub open spec fn member_string(doc: serde_json::Value, key: Seq<char>) -> Option<Seq<char>> {
    match json_member(doc, key) {
        Some(found) => json_string(found),
        None => None,
    }
}

/// The member `key` of `doc` as an unsigned integer, if it is one.
pub open spec fn member_unsigned(doc: serde_json::Value, key: Seq<char>) -> Option<u64> {
    match json_member(doc, key) {
        Some(found) => json_unsigned(found),
        None => None,
    }
}

/// The bits of the double of the member `key` of `doc`, if it is a number.
pub open spec fn member_double(doc: serde_json::Value, key: Seq<char>) -> Option<u64> {
    match json_member(doc, key) {
        Some(found) => json_double(found),
        None => None,
    }
}

/// The action that the JSON value `doc` spells.
pub open spec fn decoded(doc: serde_json::Value) -> Result<Action, ParseError> {
    action_of(
        member_string(doc, "type"@),
        member_unsigned(doc, "width"@),
        member_unsigned(doc, "height"@),
        member_double(doc, "value"@),
    )
}

/// The action that the text `message` spells.
pub open spec fn parsed(message: Seq<char>) -> Result<Action, ParseError> {
    match json_document(message) {
        Some(doc) => decoded(doc),
        None => Err(ParseError::Malformed),
    }
}

/// Reads a JSON value as an action: an object whose member `type` names the
/// action and whose other members are the action's fields.
pub fn decode_value(doc: &serde_json::Value) -> (r: Result<Action, ParseError>)
    ensures
        r == decoded(*doc),
{
    let tag = match member(doc, "type") {
        Some(found) => string_of(found),
        None => None,
    };
    let width = match member(doc, "width") {
        Some(found) => unsigned_of(found),
        None => None,
    };
    let height = match member(doc, "height") {
        Some(found) => unsigned_of(found),
        None => None,
    };
    let value = match member(doc, "value") {
        Some(found) => double_of(found),
        None => None,
    };
    action_from_fields(tag, width, height, value)
}

/// Reads a message as an action. A message that is no JSON document, or
/// spells no action, is an error and nothing else.
pub fn parse(message: &str) -> (r: Result<Action, ParseError>)
    ensures
        r == parsed(message@),
{
    match read_document(message) {
        Ok(doc) => decode_value(&doc),
        Err(_) => Err(ParseError::Malformed),
    }
}

/// The normalized value that a `SetThreshold` action writes: its value,
/// brought into zero to `ONE`.
pub open spec fn written(value: int) -> int {
    clamp(value, 0, ONE as int)
}

/// What an action gives the host and the surface to do. A `SetThreshold` is
/// one edit: a begin, one write, an end.
pub open spec fn effects_of(action: Action, viewport: Viewport) -> Seq<Effect> {
    match action {
        Action::Init => seq![
            Effect::NotifySize { width: viewport.width, height: viewport.height },
        ],
        Action::SetSize { width, height } => seq![Effect::Resize { width, height }],
        Action::SetThreshold { value } => seq![
            Effect::BeginGesture,
            Effect::WriteNormalized { value: written(value as int) as i64 },
            Effect::EndGesture,
        ],
        Action::OpenWebsite => seq![Effect::OpenLink],
    }
}

/// Carries out an action. A `SetThreshold` requests its value of the
/// threshold; no other action touches it. `viewport` is the surface's size at
/// the time.
pub fn apply(
    action: Action,
    viewport: Viewport,
    threshold: &mut Parameter,
) -> (effects: Vec<Effect>)
    ensures
        effects@ == effects_of(action, viewport),
        final(threshold)@ == threshold_after(action, old(threshold)@),
{
    let mut effects: Vec<Effect> = Vec::new();
    match action {
        Action::Init => {
            effects.push(Effect::NotifySize { width: viewport.width, height: viewport.height });
        },
        Action::SetSize { width, height } => {
            effects.push(Effect::Resize { width, height });
        },
        Action::SetThreshold { value } => {
            let normalized = clamp_to(value, 0, ONE);
            effects.push(Effect::BeginGesture);
            threshold.set_normalized(normalized);
            effects.push(Effect::WriteNormalized { value: normalized });
            effects.push(Effect::EndGesture);
        },
        Action::OpenWebsite => {
            effects.push(Effect::OpenLink);
        },
    }
    assert(effects@ =~= effects_of(action, viewport));
    effects
}

/// The threshold after an action.
pub open spec fn threshold_after(action: Action, before: ParameterModel) -> ParameterModel {
    match action {
        Action::SetThreshold { value } => before.with_normalized(written(value as int)),
        _ => before,
    }
}

/// What becomes of a message that spells `outcome`: an action is carried out,
/// an error is handed on and the threshold stays as it is.
pub open spec fn handled(
    outcome: Result<Action, ParseError>,
    viewport: Viewport,
    before: ParameterModel,
    r: Result<Vec<Effect>, ParseError>,
    after: ParameterModel,
) -> bool {
    match outcome {
        Ok(action) => {
            &&& r is Ok
            &&& r->Ok_0@ == effects_of(action, viewport)
            &&& after == threshold_after(action, before)
        },
        Err(error) => {
            &&& r == Err::<Vec<Effect>, ParseError>(error)
            &&& after == before
        },
    }
}

/// Takes a JSON value through the bridge: it is read and, if it spells an
/// action, the action is carried out. A value that spells none leaves the
/// threshold as it is.
pub fn handle_value(
    doc: &serde_json::Value,
    viewport: Viewport,
    threshold: &mut Parameter,
) -> (r: Result<Vec<Effect>, ParseError>)
    ensures
        handled(decoded(*doc), viewport, old(threshold)@, r, final(threshold)@),
{
    match decode_value(doc) {
        Ok(action) => Ok(apply(action, viewport, threshold)),
        Err(error) => Err(error),
    }
}

/// Takes a message through the bridge: it is read and, if it spells an
/// action, the action is carried out. A message that spells none leaves the
/// threshold as it is.
pub fn handle_message(
    message: &str,
    viewport: Viewport,
    threshold: &mut Parameter,
) -> (r: Result<Vec<Effect>, ParseError>)
    ensures
        handled(parsed(message@), viewport, old(threshold)@, r, final(threshold)@),
{
    match parse(message) {
        Ok(action) => Ok(apply(action, viewport, threshold)),
        Err(error) => Err(error),
    }
}

/// What to tell the surface when the host reports that the parameter `id`
/// now has the normalized raw value `value`: a change of the threshold is
/// passed on, a change of anything else is not.
pub open spec fn notification_of(id: Seq<char>, value: i64) -> Option<Effect> {
    if id =~= "threshold"@ {
        Some(Effect::NotifyThreshold { value })
    } else {
        None
    }
}

/// Computes `notification_of`.
pub fn parameter_changed(id: &str, value: i64) -> (r: Option<Effect>)
    ensures
        r == notification_of(id@, value),
{
    if same_text(id, "threshold") {
        Some(Effect::NotifyThreshold { value })
    } else {
        None
    }
}

/// Whether `effects` brackets its edits: every begin is followed at once by
/// one write and one end, and no write or end stands anywhere else.
pub open spec fn bracketed(effects: Seq<Effect>) -> bool
    decreases effects.len(),
{
    if effects.len() == 0 {
        true
    } else {
        match effects[0] {
            Effect::BeginGesture => {
                &&& effects.len() >= 3
                &&& effects[1] is WriteNormalized
                &&& effects[2] is EndGesture
                &&& bracketed(effects.skip(3))
            },
            Effect::WriteNormalized { .. } => false,
            Effect::EndGesture => false,
            _ => bracketed(effects.skip(1)),
        }
    }
}

/// Number of edits that `effects` begins.
pub open spec fn gestures(effects: Seq<Effect>) -> nat
    decreases effects.len(),
{
    if effects.len() == 0 {
        0
    } else if effects.last() is BeginGesture {
        gestures(effects.drop_last()) + 1
    } else {
        gestures(effects.drop_last())
    }
}

/// Number of `SetThreshold` actions among `actions`.
pub open spec fn threshold_edits(actions: Seq<Action>) -> nat
    decreases actions.len(),
{
    if actions.len() == 0 {
        0
    } else if actions.last() is SetThreshold {
        threshold_edits(actions.drop_last()) + 1
    } else {
        threshold_edits(actions.drop_last())
    }
}

/// Everything that a run of actions gives the host and the surface to do, in
/// order. `viewports[i]` is the surface's size at the time of `actions[i]`.
pub open spec fn effects_of_all(actions: Seq<Action>, viewports: Seq<Viewport>) -> Seq<Effect>
    decreases actions.len(),
{
    if actions.len() == 0 {
        Seq::empty()
    } else {
        effects_of_all(actions.drop_last(), viewports.drop_last()) + effects_of(
            actions.last(),
            viewports.last(),
        )
    }
}

proof fn lemma_bracketed_joins(a: Seq<Effect>, b: Seq<Effect>)
    requires
        bracketed(a),
        bracketed(b),
    ensures
        bracketed(a + b),
    decreases a.len(),
{
    if a.len() == 0 {
        assert(a + b =~= b);
    } else {
        match a[0] {
            Effect::BeginGesture => {
                assert((a + b).skip(3) =~= a.skip(3) + b);
                lemma_bracketed_joins(a.skip(3), b);
            },
            _ => {
                assert((a + b).skip(1) =~= a.skip(1) + b);
                lemma_bracketed_joins(a.skip(1), b);
            },
        }
    }
}

proof fn lemma_gestures_join(a: Seq<Effect>, b: Seq<Effect>)
    ensures
        gestures(a + b) == gestures(a) + gestures(b),
    decreases b.len(),
{
    if b.len() == 0 {
        assert(a + b =~= a);
    } else {
        assert((a + b).drop_last() =~= a + b.drop_last());
        lemma_gestures_join(a, b.drop_last());
    }
}

/// Gesture bracketing of one action: what it gives to do is bracketed, and
/// holds one edit if the action is a `SetThreshold` and none otherwise.
pub proof fn lemma_action_bracketed(action: Action, viewport: Viewport)
    ensures
        bracketed(effects_of(action, viewport)),
        gestures(effects_of(action, viewport)) == if action is SetThreshold {
            1nat
        } else {
            0nat
        },
{
    let effects = effects_of(action, viewport);
    reveal_with_fuel(bracketed, 3);
    reveal_with_fuel(gestures, 4);
    match action {
        Action::SetThreshold { .. } => {
            assert(effects.skip(3) =~= Seq::<Effect>::empty());
            assert(effects.drop_last().drop_last().drop_last() =~= Seq::<Effect>::empty());
        },
        _ => {
            assert(effects.skip(1) =~= Seq::<Effect>::empty());
            assert(effects.drop_last() =~= Seq::<Effect>::empty());
        },
    }
}

/// Gesture bracketing: however many actions are carried out, and in whatever
/// order, what they give to do brackets every edit of the threshold, with
/// exactly one begin, one write and one end for each `SetThreshold`.
pub proof fn lemma_gestures_bracketed(actions: Seq<Action>, viewports: Seq<Viewport>)
    requires
        actions.len() == viewports.len(),
    ensures
        bracketed(effects_of_all(actions, viewports)),
        gestures(effects_of_all(actions, viewports)) == threshold_edits(actions),
    decreases actions.len(),
{
    if actions.len() > 0 {
        lemma_gestures_bracketed(actions.drop_last(), viewports.drop_last());
        lemma_action_bracketed(actions.last(), viewports.last());
        lemma_bracketed_joins(
            effects_of_all(actions.drop_last(), viewports.drop_last()),
            effects_of(actions.last(), viewports.last()),
        );
        lemma_gestures_join(
            effects_of_all(actions.drop_last(), viewports.drop_last()),
            effects_of(actions.last(), viewports.last()),
        );
    }
}

} // verus!
