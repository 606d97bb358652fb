# chess_tree_eco

A viewer of the ECO opening classification: a tree of the ECO codes, the
games of the selected code, and a board that replays the selected game.

* `src/` is the library, verified with Verus: splitting the PGN text of an
  ECO volume into games (`arbol_subeco`), reading the header and cutting the
  move text of a game into tokens (`parser`), checking the main line and the
  variations move by move (`validacion`), the notation of squares, pieces and
  the text of a game (`tablero`), where the rows of the two trees hang
  (`arbol_eco`), and the menu (`indice`).
* The checking of a game is a state machine: `Validacion::peticion` says what
  the chess engine must do next (set a FEN, play a SAN move), and
  `Validacion::avanza` takes the engine's answer. `recorrido` follows whole
  runs of that machine and proves what they leave of the lines of a game.
  On every move text, each line after the main line opens with `(` and is
  linked once from an entry of an earlier line, one level deeper. Where every
  token inside a variation that starts with `)` is `)` alone, each such line
  is also `(`, moves with no parenthesis, and `)`, one for each `(`.
* `app/` is the GTK program around the library: the windows, the drawing of
  the board, the chess engine that answers the machine's requests, the JSON
  export and the thread pool.
