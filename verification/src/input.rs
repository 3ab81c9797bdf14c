//! What each user action does between refreshes. The terminal layer decodes
//! raw key events into an `InputEvent`; this module decides what happens to
//! the state and what the caller must do next, so that every reaction to
//! input is stated exactly.

use vstd::prelude::*;

use crate::models::RankedPilot;
use crate::state::{move_down_spec, move_up_spec, App};

verus! {

/// A user action, already decoded from the raw key event.
#[derive(Clone, Copy, Debug)]
pub enum InputEvent {
    /// Leave the program.
    Quit,
    /// Drop the selection.
    ClearSelection,
    /// Move the selection one row up, wrapping.
    MoveUp,
    /// Move the selection one row down, wrapping.
    MoveDown,
    /// Open the selected pilot's statistics page.
    OpenDetails,
    /// Any key without a meaning here.
    Other,
}

/// What the caller must do after an input was handled.
pub enum Outcome {
    /// Keep running.
    Continue,
    /// Stop issuing refreshes and shut the interface down.
    Quit,
    /// Open this address in a browser, then keep running.
    OpenUrl(String),
}

/// What `pilot_stats_url` returns for `cid`: the address of that member's
/// statistics page.
pub uninterp spec fn stats_url_of(cid: u64) -> Seq<char>;

/// Relies on vatsim_utils's `rest_api::stats_url`: the address of the
/// member's statistics page, a pure function of `cid`.
#[verifier::external_body]
fn pilot_stats_url(cid: u64) -> (r: String)
    ensures
        r@ == stats_url_of(cid),
{
    vatsim_utils::rest_api::stats_url(cid)
}

/// React to one user action against the currently displayed rows: quitting
/// and unknown keys leave the state alone; clearing drops the selection; the
/// movement keys step the selection with wrap-around; opening details asks
/// the caller to open the selected pilot's statistics page and selects
/// nothing new. No action touches the cache or the failure note.
pub fn handle_input(app: &mut App, rows: &Vec<RankedPilot>, ev: InputEvent) -> (out: Outcome)
    ensures
        final(app).cache() == old(app).cache(),
        final(app).failed() == old(app).failed(),
        match ev {
            InputEvent::Quit => out is Quit && final(app).sel() == old(app).sel(),
            InputEvent::ClearSelection => out is Continue && final(app).sel() is None,
            InputEvent::MoveUp => out is Continue && final(app).sel() == move_up_spec(
                old(app).sel(),
                (rows@.len() as usize),
            ),
            InputEvent::MoveDown => out is Continue && final(app).sel() == move_down_spec(
                old(app).sel(),
                (rows@.len() as usize),
            ),
            InputEvent::OpenDetails => final(app).sel() == old(app).sel() && (match old(
                app,
            ).sel() {
                Some(i) => if i < rows@.len() {
                    out matches Outcome::OpenUrl(u) && u@ == stats_url_of(
                        rows@[i as int].pilot.cid,
                    )
                } else {
                    out is Continue
                },
                None => out is Continue,
            }),
            InputEvent::Other => out is Continue && final(app).sel() == old(app).sel(),
        },
{
    match ev {
        InputEvent::Quit => Outcome::Quit,
        InputEvent::ClearSelection => {
            app.clear_selection();
            Outcome::Continue
        },
        InputEvent::MoveUp => {
            app.up(rows.len());
            Outcome::Continue
        },
        InputEvent::MoveDown => {
            app.down(rows.len());
            Outcome::Continue
        },
        InputEvent::OpenDetails => {
            match app.selected_index() {
                Some(i) => {
                    if i < rows.len() {
                        Outcome::OpenUrl(pilot_stats_url(rows[i].pilot.cid))
                    } else {
                        Outcome::Continue
                    }
                },
                None => Outcome::Continue,
            }
        },
        InputEvent::Other => Outcome::Continue,
    }
}

} // verus!
