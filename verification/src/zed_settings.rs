//! Switches the editor's theme setting and restores it.

pub mod document;
pub mod files;
pub mod nesting;
pub mod nesting_laws;
pub mod outside;
pub mod session;
pub mod state;
pub mod state_laws;

use crate::zed_settings::session::{
    Action, ActionView, Activation, ActivationPhase, ActivationView, Restoration, RestorationPhase,
    RestorationView,
};
use crate::{Error, Result};
use vstd::prelude::*;

verus! {

fn check_owner(owner: &str) -> (result: Result<()>)
    ensures
        result is Ok <==> owner@.len() > 0,
        result matches Err(error) ==> error.is_invalid("activation owner cannot be empty"@),
{
    if crate::text::characters(owner).len() == 0 {
        Err(Error::invalid("activation owner cannot be empty".to_owned()))
    } else {
        Ok(())
    }
}

/// Starts to select the managed theme for `owner`; the claim is read first.
pub fn activate(owner: &str, settings_path: &str) -> (result: Result<(Activation, Action)>)
    ensures
        result is Ok <==> owner@.len() > 0,
        result matches Ok(start) ==> {
            &&& start.0.owner@ == owner@
            &&& start.0.settings_path@ == settings_path@
            &&& start.0.phase@ == ActivationView::Claim
            &&& start.0.wf()
            &&& start.1@ == ActionView::ReadClaim
        },
        result matches Err(error) ==> error.is_invalid("activation owner cannot be empty"@),
{
    check_owner(owner)?;
    let phase = ActivationPhase::Claim;
    Ok(
        (
            Activation { owner: owner.to_owned(), settings_path: settings_path.to_owned(), phase },
            Action::ReadClaim,
        ),
    )
}

/// Starts to put back the setting that `owner` replaced; the claim is read first.
pub fn restore(owner: &str, settings_path: &str) -> (result: Result<(Restoration, Action)>)
    ensures
        result is Ok <==> owner@.len() > 0,
        result matches Ok(start) ==> {
            &&& start.0.owner@ == owner@
            &&& start.0.settings_path@ == settings_path@
            &&& start.0.phase@ == RestorationView::Claim
            &&& start.0.wf()
            &&& start.1@ == ActionView::ReadClaim
        },
        result matches Err(error) ==> error.is_invalid("activation owner cannot be empty"@),
{
    check_owner(owner)?;
    let phase = RestorationPhase::Claim;
    Ok(
        (
            Restoration { owner: owner.to_owned(), settings_path: settings_path.to_owned(), phase },
            Action::ReadClaim,
        ),
    )
}

} // verus!
