//! The minting workflow: a request is validated against the store, and
//! only an accepted one gets a token. The token and the transaction are
//! mock values made from the achievement and the time of the call.

use crate::decimal::{decimal, u64_to_decimal};
use crate::records::{MintingRequest, MintingResponse, MintingResponseView};
use crate::stable_map::fits_in_map;
use crate::store::{accepts, record_of, recorded, well_keyed, AchievementStore};
use vstd::prelude::*;
use vstd::string::*;

verus! {

/// The name of the token minted for an achievement at a time.
pub open spec fn token_mint_text(achievement_id: Seq<char>, now: u64) -> Seq<char> {
    "achievement_"@ + achievement_id + "_"@ + decimal(now as nat)
}

/// The signature of the mock transaction made at a time.
pub open spec fn transaction_text(now: u64) -> Seq<char> {
    "mock_icp_tx_"@ + decimal(now as nat)
}

/// The response to a minting request: a failure that names the validation
/// where the submission was rejected, else the token and its transaction.
pub open spec fn minting_outcome(
    accepted: bool,
    achievement_id: Seq<char>,
    now: u64,
) -> MintingResponseView {
    if accepted {
        MintingResponseView {
            success: true,
            token_mint: Some(token_mint_text(achievement_id, now)),
            transaction_signature: Some(transaction_text(now)),
            error: None,
        }
    } else {
        MintingResponseView {
            success: false,
            token_mint: None,
            transaction_signature: None,
            error: Some("Achievement validation failed"@),
        }
    }
}

/// The response for a submission whose validation ended as `accepted`.
pub fn minting_response(accepted: bool, achievement_id: &str, now: u64) -> (response:
    MintingResponse)
    ensures
        response@ == minting_outcome(accepted, achievement_id@, now),
{
    if !accepted {
        return MintingResponse {
            success: false,
            token_mint: None,
            transaction_signature: None,
            error: Some(String::from_str("Achievement validation failed")),
        };
    }
    let time = u64_to_decimal(now);
    let mut token_mint = String::from_str("achievement_");
    token_mint.append(achievement_id);
    token_mint.append("_");
    token_mint.append(time.as_str());
    let mut tx_signature = String::from_str("mock_icp_tx_");
    tx_signature.append(time.as_str());
    MintingResponse {
        success: true,
        token_mint: Some(token_mint),
        transaction_signature: Some(tx_signature),
        error: None,
    }
}

/// Handles a minting request at the time `now`. The submission is
/// validated and recorded first; a rejected one ends the request with a
/// failure and nothing is minted.
pub fn request_solana_minting(
    store: &mut AchievementStore,
    request: MintingRequest,
    now: u64,
) -> (response: MintingResponse)
    requires
        fits_in_map(record_of(request.achievement_data@)),
    ensures
        final(store)@ == recorded(old(store)@, request.achievement_data@),
        well_keyed(old(store)@) ==> well_keyed(final(store)@),
        response@ == minting_outcome(
            accepts(old(store)@, request.achievement_data@),
            request.achievement_data.achievement_id@,
            now,
        ),
{
    let achievement_id = request.achievement_data.achievement_id.clone();
    let accepted = store.validate_achievement(request.achievement_data);
    minting_response(accepted, achievement_id.as_str(), now)
}

} // verus!
