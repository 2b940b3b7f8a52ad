//! The closed enumerations the records are described with.

use vstd::prelude::*;

verus! {

/// Languages a card can be printed in.
#[derive(Clone, Copy, Debug, PartialEq, Eq, Structural)]
pub enum Language {
    English,
    German,
    French,
    Spanish,
    Italian,
    Chinese,
    Japanese,
    Russian,
}

/// Physical conditions a card can be in.
#[derive(Clone, Copy, Debug, PartialEq, Eq, Structural)]
pub enum Condition {
    Mint,
    NearMint,
    Excellent,
    Good,
    LightPlayed,
    Played,
    Poor,
}

/// The categories the application supports, one collection each.
#[derive(Clone, Copy, Debug, PartialEq, Eq, Structural)]
pub enum Game {
    Magic,
    Pokemon,
}

/// All language variants, in declaration order.
pub fn language_variants() -> (r: Vec<Language>)
    ensures
        r@ == seq![
            Language::English,
            Language::German,
            Language::French,
            Language::Spanish,
            Language::Italian,
            Language::Chinese,
            Language::Japanese,
            Language::Russian,
        ],
{
    let mut v: Vec<Language> = Vec::new();
    v.push(Language::English);
    v.push(Language::German);
    v.push(Language::French);
    v.push(Language::Spanish);
    v.push(Language::Italian);
    v.push(Language::Chinese);
    v.push(Language::Japanese);
    v.push(Language::Russian);
    proof {
        assert(v@ =~= seq![
            Language::English,
            Language::German,
            Language::French,
            Language::Spanish,
            Language::Italian,
            Language::Chinese,
            Language::Japanese,
            Language::Russian,
        ]);
    }
    v
}

/// All condition variants, in declaration order.
pub fn condition_variants() -> (r: Vec<Condition>)
    ensures
        r@ == seq![
            Condition::Mint,
            Condition::NearMint,
            Condition::Excellent,
            Condition::Good,
            Condition::LightPlayed,
            Condition::Played,
            Condition::Poor,
        ],
{
    let mut v: Vec<Condition> = Vec::new();
    v.push(Condition::Mint);
    v.push(Condition::NearMint);
    v.push(Condition::Excellent);
    v.push(Condition::Good);
    v.push(Condition::LightPlayed);
    v.push(Condition::Played);
    v.push(Condition::Poor);
    proof {
        assert(v@ =~= seq![
            Condition::Mint,
            Condition::NearMint,
            Condition::Excellent,
            Condition::Good,
            Condition::LightPlayed,
            Condition::Played,
            Condition::Poor,
        ]);
    }
    v
}

/// All game variants, in declaration order.
pub fn game_variants() -> (r: Vec<Game>)
    ensures
        r@ == seq![Game::Magic, Game::Pokemon],
{
    let mut v: Vec<Game> = Vec::new();
    v.push(Game::Magic);
    v.push(Game::Pokemon);
    proof {
        assert(v@ =~= seq![Game::Magic, Game::Pokemon]);
    }
    v
}

} // verus!
