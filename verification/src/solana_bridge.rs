//! The bridge to Solana. Nothing is sent yet: each call answers with a
//! mock value, and the responses have the shape that real ones will have.

use crate::decimal::{decimal, u64_to_decimal};
use crate::records::option_text;
use vstd::prelude::*;
use vstd::string::*;

verus! {

/// A transaction to send.
#[derive(Clone, Debug, PartialEq, Eq)]
pub struct SolanaTransaction {
    pub instruction: Vec<u8>,
    pub recent_blockhash: String,
    pub fee_payer: String,
}

/// The outcome of a call to the bridge.
#[derive(Clone, Debug, PartialEq, Eq)]
pub struct SolanaResponse {
    pub success: bool,
    pub signature: Option<String>,
    pub error: Option<String>,
}

/// The mathematical value of a `SolanaResponse`.
pub struct SolanaResponseView {
    pub success: bool,
    pub signature: Option<Seq<char>>,
    pub error: Option<Seq<char>>,
}

impl View for SolanaResponse {
    type V = SolanaResponseView;

    open spec fn view(&self) -> SolanaResponseView {
        SolanaResponseView {
            success: self.success,
            signature: option_text(self.signature),
            error: option_text(self.error),
        }
    }
}

/// A request to mint the token of an achievement into a wallet.
#[derive(Clone, Debug, PartialEq, Eq)]
pub struct AchievementMintingRequest {
    pub achievement_id: String,
    pub user_wallet: String,
    pub metadata_uri: String,
}

/// The balance that every wallet is said to have, in lamports.
pub const MOCK_BALANCE: u64 = 1000000;

/// The response of a successful mock call made at the time `now`.
pub open spec fn mock_success(now: u64) -> SolanaResponseView {
    SolanaResponseView {
        success: true,
        signature: Some("mock_solana_tx_"@ + decimal(now as nat)),
        error: None,
    }
}

/// The account information that every wallet is said to have.
pub open spec fn account_info_text(wallet_address: Seq<char>) -> Seq<char> {
    "{\"lamports\": 1000000, \"owner\": \""@ + wallet_address + "\"}"@
}

/// A successful response whose signature carries the time of the call.
fn mock_response(now: u64) -> (response: SolanaResponse)
    ensures
        response@ == mock_success(now),
{
    let mut mock_signature = String::from_str("mock_solana_tx_");
    mock_signature.append(u64_to_decimal(now).as_str());
    SolanaResponse { success: true, signature: Some(mock_signature), error: None }
}

/// Mints the token of an achievement. The request is not looked at yet.
pub fn mint_achievement_token(request: AchievementMintingRequest, now: u64) -> (response:
    SolanaResponse)
    ensures
        response@ == mock_success(now),
{
    mock_response(now)
}

/// Sends a transaction. The transaction is not looked at yet.
pub fn send_solana_transaction(transaction: SolanaTransaction, now: u64) -> (response:
    SolanaResponse)
    ensures
        response@ == mock_success(now),
{
    mock_response(now)
}

/// The balance of a wallet, in lamports.
pub fn get_solana_balance(wallet_address: String) -> (balance: Result<u64, String>)
    ensures
        balance == Ok::<u64, String>(MOCK_BALANCE),
{
    Ok(MOCK_BALANCE)
}

/// The account information of a wallet, as JSON text.
pub fn get_solana_account_info(wallet_address: String) -> (info: Result<String, String>)
    ensures
        info is Ok,
        info->Ok_0@ == account_info_text(wallet_address@),
{
    let mut text = String::from_str("{\"lamports\": 1000000, \"owner\": \"");
    text.append(wallet_address.as_str());
    text.append("\"}");
    Ok(text)
}

} // verus!
