//! The rules of an ECO opening tree viewer: splitting the ECO volumes into
//! games, reading the header and the moves of a game, checking its main line
//! and its variations move by move against a chess engine, and the notation
//! of the board, the trees and the menu.  The windows, the drawing and the
//! engine stand in the application around this library.

use vstd::prelude::*;

/// The tree of ECO codes and the tree of the games of a code.
pub mod arbol_eco;
/// The games of the ECO volumes.
pub mod arbol_subeco;
/// The main menu.
pub mod indice;
/// Decimal numbers.
pub mod numeros;
/// Moves, games, their headers and their tokens.
pub mod parser;
/// The regular expressions of the header lines and move numbers.
pub mod patrones;
/// Runs of the validation and what they leave of the lines of a game.
pub mod recorrido;
/// Squares, pieces and the text of a game.
pub mod tablero;
/// Characters and strings.
pub mod texto;
/// Checking a game move by move against the chess engine.
pub mod validacion;
