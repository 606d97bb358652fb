use vstd::prelude::*;
use crate::numeros::{decimal, texto_natural, lema_decimal_digitos, todos_digitos, valor_digitos};
use crate::parser::{JugadaV, MoveT, vista_lineas, vista_linea, vista_cadenas};
use crate::texto::{caracteres, cadena};

verus! {

/// The board: its drawing, its pieces and the text of the game stand in the
/// application; the library holds their rules.
pub struct Tablero {}

// ---------------------------------------------------------------------------
// Squares
// ---------------------------------------------------------------------------

/// The letter of column `c` (`a` to `h`).
pub open spec fn letra_columna(c: int) -> char {
    if c == 0 {
        'a'
    } else if c == 1 {
        'b'
    } else if c == 2 {
        'c'
    } else if c == 3 {
        'd'
    } else if c == 4 {
        'e'
    } else if c == 5 {
        'f'
    } else if c == 6 {
        'g'
    } else {
        'h'
    }
}

/// The digit of row `f` (`1` to `8`).
pub open spec fn digito_fila(f: int) -> char {
    if f == 0 {
        '1'
    } else if f == 1 {
        '2'
    } else if f == 2 {
        '3'
    } else if f == 3 {
        '4'
    } else if f == 4 {
        '5'
    } else if f == 5 {
        '6'
    } else if f == 6 {
        '7'
    } else {
        '8'
    }
}

/// The name of the square at row `f` and column `c`, such as `e4`.
pub open spec fn nombre_casilla(f: int, c: int) -> Seq<char> {
    seq![letra_columna(c), digito_fila(f)]
}

pub open spec fn en_tablero(coord: (usize, usize)) -> bool {
    coord.0 <= 7 && coord.1 <= 7
}

/// The coordinates (row, column) are on the board.
pub fn esta_en_tablero(coord: (usize, usize)) -> (b: bool)
    ensures
        b == en_tablero(coord),
{
    if coord.1 > 7 || coord.0 > 7 {
        false
    } else {
        true
    }
}

/// The name of the square at (row, column), or `None` off the board.
pub open spec fn alfa_notacion_spec(coord: (usize, usize)) -> Seq<char> {
    if en_tablero(coord) {
        nombre_casilla(coord.0 as int, coord.1 as int)
    } else {
        seq!['N', 'o', 'n', 'e']
    }
}

fn letra(c: usize) -> (r: char)
    requires
        c <= 7,
    ensures
        r == letra_columna(c as int),
{
    if c == 0 {
        'a'
    } else if c == 1 {
        'b'
    } else if c == 2 {
        'c'
    } else if c == 3 {
        'd'
    } else if c == 4 {
        'e'
    } else if c == 5 {
        'f'
    } else if c == 6 {
        'g'
    } else {
        'h'
    }
}

fn digito(f: usize) -> (r: char)
    requires
        f <= 7,
    ensures
        r == digito_fila(f as int),
{
    if f == 0 {
        '1'
    } else if f == 1 {
        '2'
    } else if f == 2 {
        '3'
    } else if f == 3 {
        '4'
    } else if f == 4 {
        '5'
    } else if f == 5 {
        '6'
    } else if f == 6 {
        '7'
    } else {
        '8'
    }
}

/// The name of a square from its coordinates (row, column).
pub fn alfa_notacion(xycoord: (usize, usize)) -> (r: String)
    ensures
        r@ == alfa_notacion_spec(xycoord),
{
    let mut v: Vec<char> = Vec::new();
    if !esta_en_tablero(xycoord) {
        v.push('N');
        v.push('o');
        v.push('n');
        v.push('e');
    } else {
        v.push(letra(xycoord.1));
        v.push(digito(xycoord.0));
    }
    assert(v@ =~= alfa_notacion_spec(xycoord));
    cadena(&v)
}

/// The column of a column letter.
pub open spec fn columna_de(c: char) -> Option<int> {
    if c == 'a' {
        Some(0)
    } else if c == 'b' {
        Some(1)
    } else if c == 'c' {
        Some(2)
    } else if c == 'd' {
        Some(3)
    } else if c == 'e' {
        Some(4)
    } else if c == 'f' {
        Some(5)
    } else if c == 'g' {
        Some(6)
    } else if c == 'h' {
        Some(7)
    } else {
        None
    }
}

/// A square name that `num_notacion` reads without failing: a column letter
/// and a digit from `1` to `9` first.
pub open spec fn notacion_valida(s: Seq<char>) -> bool {
    &&& s.len() >= 2
    &&& columna_de(s[0]) is Some
    &&& '1' <= s[1] && s[1] <= '9'
}

/// The square name is one that `num_notacion` reads.
pub fn notacion_legible(xycoord: &str) -> (b: bool)
    ensures
        b == notacion_valida(xycoord@),
{
    let v = caracteres(xycoord);
    v.len() >= 2 && (v[0] == 'a' || v[0] == 'b' || v[0] == 'c' || v[0] == 'd' || v[0] == 'e'
        || v[0] == 'f' || v[0] == 'g' || v[0] == 'h') && '1' <= v[1] && v[1] <= '9'
}

/// The coordinates (row, column) of a square name.
pub open spec fn num_notacion_spec(s: Seq<char>) -> (int, int) {
    (s[1] as int - '1' as int, columna_de(s[0])->0)
}

/// The coordinates (row, column) of a square name such as `e4`.
pub fn num_notacion(xycoord: &str) -> (r: (usize, usize))
    requires
        notacion_valida(xycoord@),
    ensures
        (r.0 as int, r.1 as int) == num_notacion_spec(xycoord@),
{
    let v = caracteres(xycoord);
    let car = v[0];
    let num_car = v[1];
    let col: usize = if car == 'a' {
        0
    } else if car == 'b' {
        1
    } else if car == 'c' {
        2
    } else if car == 'd' {
        3
    } else if car == 'e' {
        4
    } else if car == 'f' {
        5
    } else if car == 'g' {
        6
    } else {
        7
    };
    let fila: usize = (num_car as u32 - '1' as u32) as usize;
    (fila, col)
}

/// Reading the name of a square on the board gives its coordinates back.
pub proof fn ley_notacion_ida_y_vuelta(coord: (usize, usize))
    requires
        en_tablero(coord),
    ensures
        notacion_valida(alfa_notacion_spec(coord)),
        num_notacion_spec(alfa_notacion_spec(coord)) == (coord.0 as int, coord.1 as int),
{
}

// ---------------------------------------------------------------------------
// The pieces of a position
// ---------------------------------------------------------------------------

/// The piece of square `i` of the drawing (read from the other end when the
/// board is flipped).
pub open spec fn pieza_en(a: Seq<Seq<char>>, flipped: bool, i: int) -> Seq<char> {
    if flipped {
        a[a.len() - 1 - i]
    } else {
        a[i]
    }
}

/// The (square, piece) pairs of the first `k` squares of the drawing, read
/// row by row from the eighth row down; empty squares (`-`) have none.
pub open spec fn entradas_tablero(a: Seq<Seq<char>>, flipped: bool, k: int) -> Seq<(Seq<char>, Seq<char>)>
    decreases k,
{
    if k <= 0 {
        seq![]
    } else {
        let p = pieza_en(a, flipped, k - 1);
        entradas_tablero(a, flipped, k - 1) + (if p == seq!['-'] {
            seq![]
        } else {
            seq![(nombre_casilla(7 - (k - 1) / 8, (k - 1) % 8), p)]
        })
    }
}

/// The square of position `m` of the drawing (row by row from the eighth).
pub open spec fn casilla_de(m: int) -> Seq<char> {
    nombre_casilla(7 - m / 8, m % 8)
}

proof fn lema_casillas_distintas(m1: int, m2: int)
    requires
        0 <= m1 < 64,
        0 <= m2 < 64,
        m1 != m2,
    ensures
        casilla_de(m1) != casilla_de(m2),
{
    let a = casilla_de(m1);
    let b = casilla_de(m2);
    if m1 % 8 != m2 % 8 {
        assert(a[0] != b[0]);
    } else {
        assert(m1 / 8 != m2 / 8);
        assert(a[1] != b[1]);
    }
}

proof fn lema_entradas_distintas(a: Seq<Seq<char>>, flipped: bool, k: int)
    requires
        0 <= k <= 64,
    ensures
        forall|i: int, m: int|
            0 <= i < entradas_tablero(a, flipped, k).len() && k <= m < 64 ==> (#[trigger] entradas_tablero(a, flipped, k)[i]).0 != #[trigger] casilla_de(m),
        forall|i: int, j: int|
            0 <= i < j < entradas_tablero(a, flipped, k).len() ==> (#[trigger] entradas_tablero(a, flipped, k)[i]).0 != (#[trigger] entradas_tablero(a, flipped, k)[j]).0,
    decreases k,
{
    if k > 0 {
        lema_entradas_distintas(a, flipped, k - 1);
        let e0 = entradas_tablero(a, flipped, k - 1);
        let e = entradas_tablero(a, flipped, k);
        assert(nombre_casilla(7 - (k - 1) / 8, (k - 1) % 8) == casilla_de(k - 1));
        assert forall|i: int, m: int| 0 <= i < e.len() && k <= m < 64 implies (#[trigger] e[i]).0 != #[trigger] casilla_de(m) by {
            if i < e0.len() {
                assert(e[i] == e0[i]);
            } else {
                lema_casillas_distintas(k - 1, m);
            }
        }
        assert forall|i: int, j: int| 0 <= i < j < e.len() implies (#[trigger] e[i]).0 != (#[trigger] e[j]).0 by {
            if j < e0.len() {
                assert(e[i] == e0[i]);
                assert(e[j] == e0[j]);
            } else {
                assert(e[i] == e0[i]);
                assert(e0[i].0 != casilla_de(k - 1));
            }
        }
    }
}

/// No square has two pieces: the squares of the pieces of a drawing are all
/// different (the keys of a map).
pub proof fn ley_casillas_sin_repetir(a: Seq<Seq<char>>, flipped: bool)
    ensures
        forall|i: int, j: int|
            0 <= i < j < entradas_tablero(a, flipped, 64).len() ==> (#[trigger] entradas_tablero(a, flipped, 64)[i]).0 != (#[trigger] entradas_tablero(a, flipped, 64)[j]).0,
{
    lema_entradas_distintas(a, flipped, 64);
}

/// The letter of the column seen from the other side of the board
/// (`a` and `h` change places, `b` and `g`, ...).
pub open spec fn gira_letra(c: char) -> char {
    if c == 'a' {
        'h'
    } else if c == 'b' {
        'g'
    } else if c == 'c' {
        'f'
    } else if c == 'd' {
        'e'
    } else if c == 'e' {
        'd'
    } else if c == 'f' {
        'c'
    } else if c == 'g' {
        'b'
    } else {
        'a'
    }
}

/// The digit of the row seen from the other side of the board (row `r`
/// becomes row `9 - r`).
pub open spec fn gira_digito(d: char) -> char {
    if d == '1' {
        '8'
    } else if d == '2' {
        '7'
    } else if d == '3' {
        '6'
    } else if d == '4' {
        '5'
    } else if d == '5' {
        '4'
    } else if d == '6' {
        '3'
    } else if d == '7' {
        '2'
    } else {
        '1'
    }
}

/// The name of a square seen from the other side of the board.
pub open spec fn gira_casilla(s: Seq<char>) -> Seq<char> {
    seq![gira_letra(s[0]), gira_digito(s[1])]
}

/// A table of pieces seen from the other side of the board: its pairs in the
/// reverse order, each square turned.
pub open spec fn gira_entradas(e: Seq<(Seq<char>, Seq<char>)>) -> Seq<(Seq<char>, Seq<char>)> {
    Seq::new(e.len(), |i: int| (gira_casilla(e[e.len() - 1 - i].0), e[e.len() - 1 - i].1))
}

proof fn lema_gira_casilla(m: int)
    requires
        0 <= m < 64,
    ensures
        gira_casilla(casilla_de(m)) == casilla_de(63 - m),
{
    assert((63 - m) / 8 == 7 - m / 8);
    assert((63 - m) % 8 == 7 - m % 8);
    assert(gira_casilla(casilla_de(m)) =~= casilla_de(63 - m));
}

/// The pair of square `m` of a drawing read without turning it, if the
/// square holds a piece.
spec fn entrada_recta(a: Seq<Seq<char>>, m: int) -> Seq<(Seq<char>, Seq<char>)> {
    if a[m] == seq!['-'] {
        seq![]
    } else {
        seq![(casilla_de(m), a[m])]
    }
}

/// The pairs of the squares from `m` to the last, read without turning.
spec fn tramo_final(a: Seq<Seq<char>>, m: int) -> Seq<(Seq<char>, Seq<char>)>
    decreases 64 - m,
{
    if m >= 64 || m < 0 {
        seq![]
    } else {
        entrada_recta(a, m) + tramo_final(a, m + 1)
    }
}

proof fn lema_tramo_final(a: Seq<Seq<char>>, k: int)
    requires
        0 <= k <= 64,
    ensures
        entradas_tablero(a, false, k) + tramo_final(a, k) == tramo_final(a, 0),
    decreases k,
{
    if k > 0 {
        lema_tramo_final(a, k - 1);
        assert(entradas_tablero(a, false, k) =~= entradas_tablero(a, false, k - 1) + entrada_recta(a, k - 1));
        assert(tramo_final(a, k - 1) == entrada_recta(a, k - 1) + tramo_final(a, k));
        assert(entradas_tablero(a, false, k) + tramo_final(a, k) =~= entradas_tablero(a, false, k - 1) + tramo_final(a, k - 1));
    } else {
        assert(entradas_tablero(a, false, 0) + tramo_final(a, 0) =~= tramo_final(a, 0));
    }
}

proof fn lema_gira_concatena(x: Seq<(Seq<char>, Seq<char>)>, y: Seq<(Seq<char>, Seq<char>)>)
    ensures
        gira_entradas(x + y) == gira_entradas(y) + gira_entradas(x),
{
    assert(gira_entradas(x + y) =~= gira_entradas(y) + gira_entradas(x));
}

proof fn lema_girado(a: Seq<Seq<char>>, k: int)
    requires
        a.len() == 64,
        0 <= k <= 64,
    ensures
        entradas_tablero(a, true, k) == gira_entradas(tramo_final(a, 64 - k)),
    decreases k,
{
    if k == 0 {
        assert(gira_entradas(tramo_final(a, 64)) =~= seq![]);
    } else {
        lema_girado(a, k - 1);
        let m = 64 - k;
        assert(tramo_final(a, m) == entrada_recta(a, m) + tramo_final(a, m + 1));
        lema_gira_concatena(entrada_recta(a, m), tramo_final(a, m + 1));
        lema_gira_casilla(m);
        assert(63 - m == k - 1);
        assert(casilla_de(k - 1) == nombre_casilla(7 - (k - 1) / 8, (k - 1) % 8));
        assert(pieza_en(a, true, k - 1) == a[m]);
        if a[m] == seq!['-'] {
            assert(gira_entradas(entrada_recta(a, m)) =~= seq![]);
        } else {
            assert(gira_entradas(entrada_recta(a, m)) =~= seq![(casilla_de(k - 1), a[m])]);
        }
        assert(entradas_tablero(a, true, k) =~= entradas_tablero(a, true, k - 1) + gira_entradas(entrada_recta(a, m)));
    }
}

/// Turning the board turns its table of pieces: for a drawing of 64 squares,
/// the pairs read with the board flipped are those read without, in the
/// reverse order, each square seen from the other side (column `a` becomes
/// `h`, row `r` becomes row `9 - r`).
pub proof fn ley_tablero_girado(a: Seq<Seq<char>>)
    requires
        a.len() == 64,
    ensures
        entradas_tablero(a, true, 64) == gira_entradas(entradas_tablero(a, false, 64)),
{
    lema_girado(a, 64);
    lema_tramo_final(a, 64);
    assert(tramo_final(a, 64) =~= seq![]);
    assert(entradas_tablero(a, false, 64) + tramo_final(a, 64) =~= entradas_tablero(a, false, 64));
}

pub open spec fn vista_pares(v: Seq<(String, String)>) -> Seq<(Seq<char>, Seq<char>)> {
    v.map_values(|p: (String, String)| (p.0@, p.1@))
}

/// The pieces of a board drawing of 64 squares (`-` for an empty square),
/// each with the name of its square.
pub fn procesa_notacion(arr_piezas: Vec<String>, flipped: bool) -> (r: Vec<(String, String)>)
    requires
        arr_piezas.len() >= 64,
    ensures
        vista_pares(r@) == entradas_tablero(vista_cadenas(arr_piezas@), flipped, 64),
        forall|i: int, j: int| 0 <= i < j < r@.len() ==> (#[trigger] vista_pares(r@)[i]).0 != (#[trigger] vista_pares(r@)[j]).0,
{
    proof {
        ley_casillas_sin_repetir(vista_cadenas(arr_piezas@), flipped);
    }
    let ghost a = vista_cadenas(arr_piezas@);
    let n = arr_piezas.len();
    let mut r: Vec<(String, String)> = Vec::new();
    let mut k: usize = 0;
    while k < 64
        invariant
            k <= 64,
            n == arr_piezas.len(),
            n >= 64,
            a == vista_cadenas(arr_piezas@),
            vista_pares(r@) == entradas_tablero(a, flipped, k as int),
        decreases 64 - k,
    {
        let i = if flipped {
            n - 1 - k
        } else {
            k
        };
        let pieza = arr_piezas[i].clone();
        assert(pieza@ == pieza_en(a, flipped, k as int));
        let pc = caracteres(pieza.as_str());
        if !(pc.len() == 1 && pc[0] == '-') {
            assert(pieza@ != seq!['-']);
            let fila = k / 8;
            let col = k % 8;
            let casilla = alfa_notacion((7 - fila, col));
            let ghost par = (casilla@, pieza@);
            assert(par == (nombre_casilla(7 - (k as int) / 8, (k as int) % 8), pieza_en(a, flipped, k as int)));
            assert(vista_pares(r@.push((casilla, pieza))) =~= vista_pares(r@).push(par));
            r.push((casilla, pieza));
        } else {
            assert(pieza@ =~= seq!['-']);
        }
        k = k + 1;
    }
    r
}

// ---------------------------------------------------------------------------
// The images of the pieces
// ---------------------------------------------------------------------------

pub open spec fn png() -> Seq<char> {
    seq!['.', 'p', 'n', 'g']
}

/// The image file of a piece: the folder, the colour (`b` or `w`), the piece
/// letter in lower case, and `.png`.
pub open spec fn fichero_pieza(dir: Seq<char>, color: char, letra: char) -> Seq<char> {
    dir + seq![color, letra] + png()
}

/// The pieces and their image files: the black pieces `b k n p q r` and the
/// white pieces `B K N P Q R`.
pub open spec fn lista_piezas(dir: Seq<char>) -> Seq<(Seq<char>, Seq<char>)> {
    seq![
        (seq!['b'], fichero_pieza(dir, 'b', 'b')),
        (seq!['k'], fichero_pieza(dir, 'b', 'k')),
        (seq!['n'], fichero_pieza(dir, 'b', 'n')),
        (seq!['p'], fichero_pieza(dir, 'b', 'p')),
        (seq!['q'], fichero_pieza(dir, 'b', 'q')),
        (seq!['r'], fichero_pieza(dir, 'b', 'r')),
        (seq!['B'], fichero_pieza(dir, 'w', 'b')),
        (seq!['K'], fichero_pieza(dir, 'w', 'k')),
        (seq!['N'], fichero_pieza(dir, 'w', 'n')),
        (seq!['P'], fichero_pieza(dir, 'w', 'p')),
        (seq!['Q'], fichero_pieza(dir, 'w', 'q')),
        (seq!['R'], fichero_pieza(dir, 'w', 'r')),
    ]
}

/// The lower-case letter of an upper-case ASCII letter; other characters
/// are kept.
pub open spec fn minuscula_spec(c: char) -> char {
    if 'A' <= c && c <= 'Z' {
        ((c as u32) + 32) as char
    } else {
        c
    }
}

fn minuscula(c: char) -> (r: char)
    ensures
        r == minuscula_spec(c),
{
    if 'A' <= c && c <= 'Z' {
        let n: u8 = (c as u32 + 32) as u8;
        n as char
    } else {
        c
    }
}

fn entrada_pieza(dir: &Vec<char>, pieza: char, color: char) -> (r: (String, String))
    ensures
        r.0@ == seq![pieza],
        r.1@ == fichero_pieza(dir@, color, minuscula_spec(pieza)),
{
    let mut f: Vec<char> = Vec::new();
    let mut k: usize = 0;
    while k < dir.len()
        invariant
            k <= dir.len(),
            f@ == dir@.take(k as int),
        decreases dir.len() - k,
    {
        f.push(dir[k]);
        assert(dir@.take(k + 1) == dir@.take(k as int).push(dir@[k as int]));
        k = k + 1;
    }
    assert(dir@.take(dir.len() as int) == dir@);
    f.push(color);
    f.push(minuscula(pieza));
    f.push('.');
    f.push('p');
    f.push('n');
    f.push('g');
    assert(f@ =~= fichero_pieza(dir@, color, minuscula_spec(pieza)));
    let mut p: Vec<char> = Vec::new();
    p.push(pieza);
    assert(p@ =~= seq![pieza]);
    (cadena(&p), cadena(&f))
}

/// The image file of each piece (`crea_lista_piezas`; the application loads
/// the images).
pub fn crea_lista_piezas(directorio: String) -> (r: Vec<(String, String)>)
    ensures
        vista_pares(r@) == lista_piezas(directorio@),
{
    let dir = caracteres(directorio.as_str());
    let mut r: Vec<(String, String)> = Vec::new();
    r.push(entrada_pieza(&dir, 'b', 'b'));
    r.push(entrada_pieza(&dir, 'k', 'b'));
    r.push(entrada_pieza(&dir, 'n', 'b'));
    r.push(entrada_pieza(&dir, 'p', 'b'));
    r.push(entrada_pieza(&dir, 'q', 'b'));
    r.push(entrada_pieza(&dir, 'r', 'b'));
    r.push(entrada_pieza(&dir, 'B', 'w'));
    r.push(entrada_pieza(&dir, 'K', 'w'));
    r.push(entrada_pieza(&dir, 'N', 'w'));
    r.push(entrada_pieza(&dir, 'P', 'w'));
    r.push(entrada_pieza(&dir, 'Q', 'w'));
    r.push(entrada_pieza(&dir, 'R', 'w'));
    assert(vista_pares(r@) =~= lista_piezas(directorio@));
    r
}

// ---------------------------------------------------------------------------
// The text of a game
// ---------------------------------------------------------------------------

/// A piece of the text of a game: a move number label, a link that shows a
/// move (its markup) and sets the board to a FEN, or a space.
pub enum PiezaTexto {
    Numero(String),
    Enlace(String, String),
    Espacio,
}

pub enum PiezaTextoV {
    Numero(Seq<char>),
    Enlace(Seq<char>, Seq<char>),
    Espacio,
}

impl View for PiezaTexto {
    type V = PiezaTextoV;

    open spec fn view(&self) -> PiezaTextoV {
        match self {
            PiezaTexto::Numero(s) => PiezaTextoV::Numero(s@),
            PiezaTexto::Enlace(m, f) => PiezaTextoV::Enlace(m@, f@),
            PiezaTexto::Espacio => PiezaTextoV::Espacio,
        }
    }
}

pub open spec fn vista_piezas(v: Seq<PiezaTexto>) -> Seq<PiezaTextoV> {
    v.map_values(|p: PiezaTexto| p@)
}

/// The markup of a link: the text in blue.
pub open spec fn marca_enlace(texto: Seq<char>) -> Seq<char> {
    "<span color=\"blue\">"@ + texto + "</span>"@
}

/// The number of white moves among the first `k` entries of a line.
pub open spec fn numero_hasta(l: Seq<JugadaV>, k: int) -> nat
    decreases k,
{
    if k <= 0 {
        0
    } else {
        numero_hasta(l, k - 1) + (if l[k - 1].turno == seq!['w'] {
            1nat
        } else {
            0nat
        })
    }
}

/// The text of the first `k` entries of a line: before each white move its
/// number and a period, then a link for every entry, and a space.
pub open spec fn texto_linea(l: Seq<JugadaV>, k: int) -> Seq<PiezaTextoV>
    decreases k,
{
    if k <= 0 {
        seq![]
    } else {
        let m = l[k - 1];
        texto_linea(l, k - 1) + (if m.turno == seq!['w'] {
            seq![PiezaTextoV::Numero(decimal(numero_hasta(l, k)) + seq!['.', ' '])]
        } else {
            seq![]
        }) + seq![PiezaTextoV::Enlace(marca_enlace(m.san), m.fen), PiezaTextoV::Espacio]
    }
}

proof fn lema_texto_prefijo(l: Seq<JugadaV>, k: int, n: int)
    requires
        0 <= k <= n,
    ensures
        texto_linea(l, k).len() <= texto_linea(l, n).len(),
        texto_linea(l, n).take(texto_linea(l, k).len() as int) == texto_linea(l, k),
    decreases n - k,
{
    if k < n {
        lema_texto_prefijo(l, k, n - 1);
        let a = texto_linea(l, k);
        let b = texto_linea(l, n - 1);
        let c = texto_linea(l, n);
        assert(c.take(b.len() as int) =~= b);
        assert(c.take(a.len() as int) =~= b.take(a.len() as int));
    } else {
        assert(texto_linea(l, n).take(texto_linea(l, n).len() as int) =~= texto_linea(l, n));
    }
}

/// The number before each white move of a line is the count, in full
/// decimal, of the white moves up to and including it: in the text of the
/// line, right after the text of the entries before a white move comes a
/// label made of decimal digits that read that count, and `. `.
pub proof fn ley_numero_de_jugada(l: Seq<JugadaV>, k: int)
    requires
        0 <= k < l.len(),
        l[k].turno == seq!['w'],
    ensures
        texto_linea(l, l.len() as int)[texto_linea(l, k).len() as int] matches PiezaTextoV::Numero(x) && {
            &&& x.len() >= 3
            &&& x.subrange(x.len() - 2, x.len() as int) == seq!['.', ' ']
            &&& todos_digitos(x.subrange(0, x.len() - 2))
            &&& valor_digitos(x.subrange(0, x.len() - 2)) == numero_hasta(l, k + 1)
        },
{
    lema_texto_prefijo(l, k + 1, l.len() as int);
    let t0 = texto_linea(l, k);
    let t1 = texto_linea(l, k + 1);
    let t = texto_linea(l, l.len() as int);
    let d = decimal(numero_hasta(l, k + 1));
    lema_decimal_digitos(numero_hasta(l, k + 1));
    assert(t1[t0.len() as int] == PiezaTextoV::Numero(d + seq!['.', ' ']));
    assert(t[t0.len() as int] == t1[t0.len() as int]) by {
        assert(t.take(t1.len() as int)[t0.len() as int] == t[t0.len() as int]);
    }
    let x = d + seq!['.', ' '];
    assert(x.subrange(0, x.len() - 2) =~= d);
    assert(x.subrange(x.len() - 2, x.len() as int) =~= seq!['.', ' ']);
}

/// The markup of the link of a move.
pub fn texto_enlace(texto: &str) -> (r: String)
    ensures
        r@ == marca_enlace(texto@),
{
    let mut r = String::from_str("<span color=\"blue\">");
    r.append(texto);
    r.append("</span>");
    r
}

impl Tablero {
    /// The text of the main line of a game (line 0).
    pub fn crea_texto_partida(partida: &Vec<Vec<MoveT>>) -> (r: Vec<PiezaTexto>)
        requires
            partida@.len() >= 1,
        ensures
            vista_piezas(r@) == texto_linea(vista_lineas(partida@)[0], vista_lineas(partida@)[0].len() as int),
    {
        let linea = &partida[0];
        let ghost l = vista_linea(linea@);
        assert(l == vista_lineas(partida@)[0]);
        let mut r: Vec<PiezaTexto> = Vec::new();
        let mut num_jugada: u64 = 0;
        let mut k: usize = 0;
        while k < linea.len()
            invariant
                k <= linea.len(),
                l == vista_linea(linea@),
                num_jugada as nat == numero_hasta(l, k as int),
                num_jugada <= k,
                vista_piezas(r@) == texto_linea(l, k as int),
            decreases linea.len() - k,
        {
            let movim = &linea[k];
            assert(movim@ == l[k as int]);
            let ghost antes = vista_piezas(r@);
            let blancas = {
                let t = caracteres(movim.turno.as_str());
                let b = t.len() == 1 && t[0] == 'w';
                assert(b == (movim.turno@ == seq!['w'])) by {
                    if t.len() == 1 && t[0] == 'w' {
                        assert(t@ =~= seq!['w']);
                    }
                }
                b
            };
            if blancas {
                num_jugada = num_jugada + 1;
                let mut txt = texto_natural(num_jugada);
                let ghost d = txt@;
                txt.push('.');
                txt.push(' ');
                assert(txt@ =~= d + seq!['.', ' ']);
                let etiqueta = cadena(&txt);
                let ghost ev = etiqueta@;
                r.push(PiezaTexto::Numero(etiqueta));
                assert(vista_piezas(r@) =~= antes.push(PiezaTextoV::Numero(ev)));
            }
            let ghost medio = vista_piezas(r@);
            let enlace = PiezaTexto::Enlace(texto_enlace(movim.san.as_str()), movim.fen.clone());
            let ghost env = enlace@;
            r.push(enlace);
            r.push(PiezaTexto::Espacio);
            assert(vista_piezas(r@) =~= medio.push(env).push(PiezaTextoV::Espacio));
            assert(env == PiezaTextoV::Enlace(marca_enlace(l[k as int].san), l[k as int].fen));
            assert(numero_hasta(l, k + 1) == num_jugada);
            let ghost parte = if l[k as int].turno == seq!['w'] {
                seq![PiezaTextoV::Numero(decimal(numero_hasta(l, k + 1)) + seq!['.', ' '])]
            } else {
                seq![]
            };
            assert(medio =~= antes + parte);
            assert(texto_linea(l, k + 1) == antes + parte + seq![env, PiezaTextoV::Espacio]);
            assert(vista_piezas(r@) =~= texto_linea(l, k + 1));
            k = k + 1;
        }
        r
    }
}

} // verus!
