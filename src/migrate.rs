//! Schema upgrades: which steps a store at a given version still needs,
//! and the data each step derives from what an older version kept.
use vstd::prelude::*;
use crate::model::SaveScreenConfigRequest;
use crate::text::text_equal;

verus! {

/// The schema version this library writes.
pub const LATEST_SCHEMA_VERSION: i64 = 5;

/// The steps still to apply to a store at version `current`, in order:
/// every version above it up to the latest.
pub open spec fn pending_steps(current: int) -> Seq<i64> {
    let from = if current < 0 { 0 } else { current };
    if from >= LATEST_SCHEMA_VERSION {
        Seq::empty()
    } else {
        Seq::new((LATEST_SCHEMA_VERSION - from) as nat, |i: int| (from + 1 + i) as i64)
    }
}

/// The steps a store at version `current` still needs.
pub fn pending_migrations(current: i64) -> (r: Vec<i64>)
    ensures
        r@ == pending_steps(current as int),
{
    let from: i64 = if current < 0 { 0 } else { current };
    let mut r: Vec<i64> = Vec::new();
    if from >= LATEST_SCHEMA_VERSION {
        proof {
            assert(r@ =~= pending_steps(current as int));
        }
        return r;
    }
    let mut v: i64 = from + 1;
    while v <= LATEST_SCHEMA_VERSION
        invariant
            0 <= from < LATEST_SCHEMA_VERSION,
            from + 1 <= v <= LATEST_SCHEMA_VERSION + 1,
            r@ =~= Seq::new((v - from - 1) as nat, |i: int| (from + 1 + i) as i64),
        decreases LATEST_SCHEMA_VERSION + 1 - v,
    {
        r.push(v);
        v = v + 1;
    }
    proof {
        assert(r@ =~= pending_steps(current as int));
    }
    r
}

/// The colour that replaces a legacy priority: red for `high`, green for
/// `low`, and the default orange for `medium` or anything else.
pub open spec fn priority_color(priority: Seq<char>) -> Seq<char> {
    if priority == "high"@ {
        "#EF4444"@
    } else if priority == "low"@ {
        "#10B981"@
    } else {
        "#F59E0B"@
    }
}

/// The colour for a legacy priority.
pub fn color_for_priority(priority: &str) -> (r: String)
    ensures
        r@ == priority_color(priority@),
{
    if text_equal(priority, "high") {
        String::from_str("#EF4444")
    } else if text_equal(priority, "low") {
        String::from_str("#10B981")
    } else {
        String::from_str("#F59E0B")
    }
}

/// The layout carried over from the single saved window rectangle of old
/// versions, under the arrangement id `legacy`. A coordinate the old
/// values lack takes its default: 100, 100, 380 by 600. Values are
/// narrowed to 32 bits as stored.
pub fn legacy_screen_config(
    x: Option<i64>,
    y: Option<i64>,
    width: Option<i64>,
    height: Option<i64>,
    is_fixed: bool,
) -> (r: SaveScreenConfigRequest)
    ensures
        r.config_id@ == "legacy"@,
        r.display_name is Some && r.display_name.unwrap()@ == "旧版配置"@,
        r.window_x == (match x { Some(v) => v, None => 100 }) as i32,
        r.window_y == (match y { Some(v) => v, None => 100 }) as i32,
        r.window_width == (match width { Some(v) => v, None => 380 }) as i32,
        r.window_height == (match height { Some(v) => v, None => 600 }) as i32,
        r.is_fixed == is_fixed,
{
    let xv: i64 = match x { Some(v) => v, None => 100 };
    let yv: i64 = match y { Some(v) => v, None => 100 };
    let wv: i64 = match width { Some(v) => v, None => 380 };
    let hv: i64 = match height { Some(v) => v, None => 600 };
    SaveScreenConfigRequest {
        config_id: String::from_str("legacy"),
        display_name: Some(String::from_str("旧版配置")),
        window_x: #[verifier::truncate] (xv as i32),
        window_y: #[verifier::truncate] (yv as i32),
        window_width: #[verifier::truncate] (wv as i32),
        window_height: #[verifier::truncate] (hv as i32),
        is_fixed: is_fixed,
    }
}

/// The layout carried over from the settings of old versions, made only
/// when both a window position and a window size were saved (each read as
/// a JSON object, whose coordinates may be missing): see
/// `legacy_screen_config`. Fixed mode is on when the old `is_fixed` value
/// was `true`.
pub fn legacy_layout(
    position: Option<(Option<i64>, Option<i64>)>,
    size: Option<(Option<i64>, Option<i64>)>,
    is_fixed: Option<&str>,
) -> (r: Option<SaveScreenConfigRequest>)
    ensures
        r is Some <==> position is Some && size is Some,
        r is Some ==> {
            let c = r.unwrap();
            let (x, y) = position.unwrap();
            let (w, h) = size.unwrap();
            &&& c.config_id@ == "legacy"@
            &&& c.display_name is Some && c.display_name.unwrap()@ == "旧版配置"@
            &&& c.window_x == (match x { Some(v) => v, None => 100 }) as i32
            &&& c.window_y == (match y { Some(v) => v, None => 100 }) as i32
            &&& c.window_width == (match w { Some(v) => v, None => 380 }) as i32
            &&& c.window_height == (match h { Some(v) => v, None => 600 }) as i32
            &&& c.is_fixed == (is_fixed is Some && is_fixed.unwrap()@ == "true"@)
        },
{
    match (position, size) {
        (Some((x, y)), Some((w, h))) => {
            let fixed = match is_fixed {
                Some(v) => text_equal(v, "true"),
                None => false,
            };
            Some(legacy_screen_config(x, y, w, h, fixed))
        },
        _ => None,
    }
}

} // verus!
