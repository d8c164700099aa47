//! The data model: what a caller submits, what the store keeps, and the
//! request and response of the minting workflow.

use vstd::prelude::*;

verus! {

/// A submission: the caller's claim that a user has earned an achievement.
/// Only the identifiers, the two visit counts and the timestamp bear on
/// what the store does; the name and the wallet address are carried along.
#[derive(Clone, Debug, PartialEq, Eq)]
pub struct AchievementData {
    pub user_id: String,
    pub achievement_id: String,
    pub achievement_name: String,
    pub required_visits: u32,
    pub current_visits: u32,
    pub timestamp: String,
    pub wallet_address: String,
}

/// The mathematical value of an `AchievementData`.
pub struct AchievementDataView {
    pub user_id: Seq<char>,
    pub achievement_id: Seq<char>,
    pub achievement_name: Seq<char>,
    pub required_visits: u32,
    pub current_visits: u32,
    pub timestamp: Seq<char>,
    pub wallet_address: Seq<char>,
}

impl View for AchievementData {
    type V = AchievementDataView;

    open spec fn view(&self) -> AchievementDataView {
        AchievementDataView {
            user_id: self.user_id@,
            achievement_id: self.achievement_id@,
            achievement_name: self.achievement_name@,
            required_visits: self.required_visits,
            current_visits: self.current_visits,
            timestamp: self.timestamp@,
            wallet_address: self.wallet_address@,
        }
    }
}

/// Descriptive metadata of the token that a minting request asks for.
#[derive(Clone, Debug, PartialEq, Eq)]
pub struct AchievementMetadata {
    pub name: String,
    pub symbol: String,
    pub description: String,
    pub image: String,
    pub attributes: Vec<Attribute>,
}

/// One trait of a token's metadata.
#[derive(Clone, Debug, PartialEq, Eq)]
pub struct Attribute {
    pub trait_type: String,
    pub value: String,
}

/// A request to mint a token for an achievement.
#[derive(Clone, Debug, PartialEq, Eq)]
pub struct MintingRequest {
    pub achievement_data: AchievementData,
    pub metadata: AchievementMetadata,
}

/// The outcome of a minting request.
#[derive(Clone, Debug, PartialEq, Eq)]
pub struct MintingResponse {
    pub success: bool,
    pub token_mint: Option<String>,
    pub transaction_signature: Option<String>,
    pub error: Option<String>,
}

/// The mathematical value of a `MintingResponse`.
pub struct MintingResponseView {
    pub success: bool,
    pub token_mint: Option<Seq<char>>,
    pub transaction_signature: Option<Seq<char>>,
    pub error: Option<Seq<char>>,
}

/// The text of an optional string.
pub open spec fn option_text(text: Option<String>) -> Option<Seq<char>> {
    match text {
        Some(s) => Some(s@),
        None => None,
    }
}

impl View for MintingResponse {
    type V = MintingResponseView;

    open spec fn view(&self) -> MintingResponseView {
        MintingResponseView {
            success: self.success,
            token_mint: option_text(self.token_mint),
            transaction_signature: option_text(self.transaction_signature),
            error: option_text(self.error),
        }
    }
}

/// The record that the store keeps of one unlocked achievement.
#[derive(Clone, Debug, PartialEq, Eq)]
pub struct StoredAchievement {
    pub achievement_id: String,
    pub user_id: String,
    pub unlocked_at: String,
    pub verified: bool,
}

/// The mathematical value of a `StoredAchievement`.
pub struct StoredAchievementView {
    pub achievement_id: Seq<char>,
    pub user_id: Seq<char>,
    pub unlocked_at: Seq<char>,
    pub verified: bool,
}

impl View for StoredAchievement {
    type V = StoredAchievementView;

    open spec fn view(&self) -> StoredAchievementView {
        StoredAchievementView {
            achievement_id: self.achievement_id@,
            user_id: self.user_id@,
            unlocked_at: self.unlocked_at@,
            verified: self.verified,
        }
    }
}

} // verus!
