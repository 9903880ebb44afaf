//! Verified parser for chess game transcripts in PGN-style notation.
//!
//! A transcript is a header block of `[Key "Value"]` entries, a numbered
//! move list in standard algebraic notation, and a terminal result token.
//! Parsing either yields one complete `PGNGame` or one typed `ParseError`;
//! every parsing function carries a contract that pins its result down to
//! a mathematical model of the grammar, stated over the input bytes.

pub mod game;
pub mod header;
pub mod laws;
pub mod san;
pub mod scan;
pub mod types;

pub use game::PGNGame;
pub use game::PlyResult;
pub use game::mve;
pub use game::moves;
pub use game::result_token;
pub use header::headers;
pub use header::key_value_pair;
pub use san::pawn_capture;
pub use san::pawn_move;
pub use san::piece_move;
pub use san::san;
pub use san::to_san;
pub use scan::alphanumeric_or_underscore;
pub use scan::is_space_or_eol;
pub use types::GameResult;
pub use types::HalfMove;
pub use types::ParseError;
pub use types::Piece;
