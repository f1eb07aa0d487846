pub mod card;
pub mod deck;
pub mod error;
pub mod hand;
pub mod handtype;
pub mod lex;
