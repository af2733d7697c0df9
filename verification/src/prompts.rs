//! The prompt bank and the deterministic prompt picker.
//!
//! The host draws a prompt from a fixed, ordered bank of sentences. The draw
//! is deterministic in a seed byte that the substrate derives by hashing the
//! host's location identity, the current logical time and the current block
//! height: unpredictable in advance, reproducible after the fact. Only the
//! host selects; replicas receive the literal text in broadcasts.

use vstd::prelude::*;

verus! {

/// How many prompts the bank holds.
pub const WORD_BANK_SIZE: u8 = 15;

/// The prompt at a position of the fixed, ordered bank.
pub open spec fn word_bank_entry(index: int) -> Seq<char> {
    if index == 0 {
        "The quick brown fox jumps over the lazy dog near the riverbank."@
    } else if index == 1 {
        "Blockchain technology enables decentralized applications with trustless consensus."@
    } else if index == 2 {
        "Linera microchains provide infinite horizontal scalability for web3 applications."@
    } else if index == 3 {
        "Fast fingers and sharp minds compete in the ultimate typing arena showdown."@
    } else if index == 4 {
        "Practice makes perfect when it comes to improving your typing speed."@
    } else if index == 5 {
        "Cross-chain messaging allows real-time synchronization between player chains."@
    } else if index == 6 {
        "Speed and accuracy are the twin pillars of typing mastery excellence."@
    } else if index == 7 {
        "The future of gaming lies in decentralized multiplayer experiences."@
    } else if index == 8 {
        "Every keystroke counts when racing against opponents in real time."@
    } else if index == 9 {
        "Sub-second finality means your results update instantly across all chains."@
    } else if index == 10 {
        "Welcome to Type Arena where champions are forged through practice."@
    } else if index == 11 {
        "Microchains enable each player to have their own dedicated blockchain."@
    } else if index == 12 {
        "Real-time competition has never been more exciting or accessible."@
    } else if index == 13 {
        "The clock is ticking and every word matters in this typing race."@
    } else {
        "Precision typing separates the good players from the great ones."@
    }
}

/// The prompt a seed byte selects: the bank entry at the seed's remainder
/// modulo the bank size.
pub open spec fn prompt_for(seed: u8) -> Seq<char> {
    word_bank_entry(seed as int % WORD_BANK_SIZE as int)
}

/// Draw the prompt for a seed byte.
pub fn get_random_prompt(seed: u8) -> (prompt: String)
    ensures
        prompt@ == prompt_for(seed),
{
    let index: u8 = seed % WORD_BANK_SIZE;
    let text: &str = if index == 0 {
        "The quick brown fox jumps over the lazy dog near the riverbank."
    } else if index == 1 {
        "Blockchain technology enables decentralized applications with trustless consensus."
    } else if index == 2 {
        "Linera microchains provide infinite horizontal scalability for web3 applications."
    } else if index == 3 {
        "Fast fingers and sharp minds compete in the ultimate typing arena showdown."
    } else if index == 4 {
        "Practice makes perfect when it comes to improving your typing speed."
    } else if index == 5 {
        "Cross-chain messaging allows real-time synchronization between player chains."
    } else if index == 6 {
        "Speed and accuracy are the twin pillars of typing mastery excellence."
    } else if index == 7 {
        "The future of gaming lies in decentralized multiplayer experiences."
    } else if index == 8 {
        "Every keystroke counts when racing against opponents in real time."
    } else if index == 9 {
        "Sub-second finality means your results update instantly across all chains."
    } else if index == 10 {
        "Welcome to Type Arena where champions are forged through practice."
    } else if index == 11 {
        "Microchains enable each player to have their own dedicated blockchain."
    } else if index == 12 {
        "Real-time competition has never been more exciting or accessible."
    } else if index == 13 {
        "The clock is ticking and every word matters in this typing race."
    } else {
        "Precision typing separates the good players from the great ones."
    };
    text.to_owned()
}

} // verus!
