use vstd::prelude::*;
use crate::texto::{caracteres, cadena, divide, trozos, vistas, empieza_con};

verus! {

/// The header of one game of an ECO volume: the three quoted values of its
/// first three header lines (the site line holds the ECO code, the white line
/// the opening and the black line the variation).
#[derive(Clone)]
pub struct Cabecera {
    pub sitio: String,
    pub blancas: String,
    pub negras: String,
}

/// One game of an ECO volume: its header and the text of its moves.
#[derive(Clone)]
pub struct Partida {
    pub cabecera: Cabecera,
    pub jugadas: String,
}

pub struct CabeceraV {
    pub sitio: Seq<char>,
    pub blancas: Seq<char>,
    pub negras: Seq<char>,
}

pub struct PartidaV {
    pub cabecera: CabeceraV,
    pub jugadas: Seq<char>,
}

impl View for Cabecera {
    type V = CabeceraV;

    open spec fn view(&self) -> CabeceraV {
        CabeceraV { sitio: self.sitio@, blancas: self.blancas@, negras: self.negras@ }
    }
}

impl View for Partida {
    type V = PartidaV;

    open spec fn view(&self) -> PartidaV {
        PartidaV { cabecera: self.cabecera@, jugadas: self.jugadas@ }
    }
}

impl Cabecera {
    /// A copy of this header.
    pub fn copia(&self) -> (r: Cabecera)
        ensures
            r@ == self@,
    {
        Cabecera {
            sitio: self.sitio.clone(),
            blancas: self.blancas.clone(),
            negras: self.negras.clone(),
        }
    }
}

/// The line put in place of a missing third header line.
pub open spec fn linea_negras_vacia() -> Seq<char> {
    seq!['[', 'B', 'l', 'a', 'c', 'k', ' ', '"', ' ', '"', ']']
}

/// The lines of a header block; a block of fewer than three lines gets one
/// more line, whose quoted value is a single space.
pub open spec fn lineas_cabecera(cabeza: Seq<char>) -> Seq<Seq<char>> {
    let l = trozos(cabeza, seq!['\n']);
    if l.len() < 3 {
        l.push(linea_negras_vacia())
    } else {
        l
    }
}

/// The text between the first and the second double quote of `linea` (or
/// after the first one, when it has no second one).
pub open spec fn valor_entre_comillas(linea: Seq<char>) -> Seq<char> {
    trozos(linea, seq!['"'])[1]
}

/// A header block that `arregla_cabecera` reads without failing: at least two
/// lines, each with a double quote.
pub open spec fn cabecera_valida(cabeza: Seq<char>) -> bool {
    let l = lineas_cabecera(cabeza);
    &&& l.len() >= 3
    &&& forall|i: int| 0 <= i < l.len() ==> trozos(#[trigger] l[i], seq!['"']).len() >= 2
}

pub open spec fn arregla_cabecera_spec(cabeza: Seq<char>) -> CabeceraV {
    let l = lineas_cabecera(cabeza);
    CabeceraV {
        sitio: valor_entre_comillas(l[0]),
        blancas: valor_entre_comillas(l[1]),
        negras: valor_entre_comillas(l[2]),
    }
}

/// Reads the header of a game: the quoted values of its first three lines.
pub fn arregla_cabecera(cabeza: &str) -> (c: Cabecera)
    requires
        cabecera_valida(cabeza@),
    ensures
        c@ == arregla_cabecera_spec(cabeza@),
{
    let texto = caracteres(cabeza);
    let salto = vec!['\n'];
    assert(salto@ =~= seq!['\n']);
    let mut elems = divide(&texto, &salto);
    if elems.len() < 3 {
        let extra = vec!['[', 'B', 'l', 'a', 'c', 'k', ' ', '"', ' ', '"', ']'];
        assert(extra@ =~= linea_negras_vacia());
        assert(vistas(elems@.push(extra)) =~= vistas(elems@).push(extra@));
        elems.push(extra);
    }
    let ghost l = lineas_cabecera(cabeza@);
    assert(vistas(elems@) == l);
    let comilla = vec!['"'];
    assert(comilla@ =~= seq!['"']);
    let mut valores: Vec<Vec<char>> = Vec::new();
    let mut i: usize = 0;
    while i < elems.len()
        invariant
            i <= elems.len(),
            vistas(elems@) == l,
            l == lineas_cabecera(cabeza@),
            cabecera_valida(cabeza@),
            comilla@ == seq!['"'],
            valores@.len() == i,
            forall|k: int| 0 <= k < i ==> #[trigger] valores@[k]@ == valor_entre_comillas(l[k]),
        decreases elems.len() - i,
    {
        let ele = divide(&elems[i], &comilla);
        assert(elems@[i as int]@ == l[i as int]);
        assert(trozos(l[i as int], seq!['"']).len() >= 2);
        assert(vistas(ele@)[1] == ele@[1]@);
        valores.push(crate::texto::copia_caracteres(&ele[1]));
        i = i + 1;
    }
    Cabecera { sitio: cadena(&valores[0]), blancas: cadena(&valores[1]), negras: cadena(&valores[2]) }
}

// ---------------------------------------------------------------------------
// Splitting an ECO volume into games
// ---------------------------------------------------------------------------

/// The volume that holds the games of an ECO code: `A00` to `E00` are the
/// volumes 0 to 4; other codes have none.
pub open spec fn volumen_eco(eco: Seq<char>) -> Option<int> {
    if eco == seq!['A', '0', '0'] {
        Some(0)
    } else if eco == seq!['B', '0', '0'] {
        Some(1)
    } else if eco == seq!['C', '0', '0'] {
        Some(2)
    } else if eco == seq!['D', '0', '0'] {
        Some(3)
    } else if eco == seq!['E', '0', '0'] {
        Some(4)
    } else {
        None
    }
}

/// The ECO codes `A00` to `E00` name the five volumes in the order of their
/// letters: the code `X00` selects the volume at the place of `X` in
/// `A B C D E`, and no other code selects one.
pub proof fn ley_volumen_por_letra(eco: Seq<char>)
    ensures
        volumen_eco(eco) is Some <==> (eco.len() == 3 && 'A' <= eco[0] <= 'E' && eco[1] == '0' && eco[2] == '0'),
        volumen_eco(eco) matches Some(k) ==> k == eco[0] as int - 'A' as int,
{
    if eco.len() == 3 && 'A' <= eco[0] <= 'E' && eco[1] == '0' && eco[2] == '0' {
        let c = eco[0];
        if c == 'A' {
            assert(eco =~= seq!['A', '0', '0']);
        } else if c == 'B' {
            assert(eco =~= seq!['B', '0', '0']);
        } else if c == 'C' {
            assert(eco =~= seq!['C', '0', '0']);
        } else if c == 'D' {
            assert(eco =~= seq!['D', '0', '0']);
        } else {
            assert(c == 'E');
            assert(eco =~= seq!['E', '0', '0']);
        }
    } else {
        assert(eco != seq!['A', '0', '0']);
        assert(eco != seq!['B', '0', '0']);
        assert(eco != seq!['C', '0', '0']);
        assert(eco != seq!['D', '0', '0']);
        assert(eco != seq!['E', '0', '0']);
    }
}

pub fn selecciona_volumen(eco: &str) -> (r: Option<usize>)
    ensures
        r matches Some(k) ==> volumen_eco(eco@) == Some(k as int),
        r is None ==> volumen_eco(eco@) is None,
{
    let v = caracteres(eco);
    if v.len() != 3 || v[1] != '0' || v[2] != '0' {
        assert(volumen_eco(eco@) is None) by {
            if v.len() == 3 {
                assert(eco@[1] != '0' || eco@[2] != '0');
            }
        }
        return None;
    }
    let letra = v[0];
    assert(eco@ =~= seq![letra, '0', '0']);
    if letra == 'A' {
        Some(0)
    } else if letra == 'B' {
        Some(1)
    } else if letra == 'C' {
        Some(2)
    } else if letra == 'D' {
        Some(3)
    } else if letra == 'E' {
        Some(4)
    } else {
        assert(eco@ != seq!['A', '0', '0'] && eco@ != seq!['B', '0', '0'] && eco@ != seq![
            'C',
            '0',
            '0',
        ] && eco@ != seq!['D', '0', '0'] && eco@ != seq!['E', '0', '0']) by {
            assert(eco@[0] == letra);
        }
        None
    }
}

/// The games of a sequence of blocks, read from block `i` on: a block that
/// begins with `[` is a header when no header is pending, and the first block
/// after a pending header that does not begin with `[` holds its moves.
pub open spec fn agrupa(bloques: Seq<Seq<char>>, i: int, hay: bool, cab: CabeceraV) -> Seq<PartidaV>
    decreases bloques.len() - i,
{
    if i < 0 || i >= bloques.len() {
        seq![]
    } else if empieza_con(bloques[i], '[') {
        if !hay {
            agrupa(bloques, i + 1, true, arregla_cabecera_spec(bloques[i]))
        } else {
            agrupa(bloques, i + 1, hay, cab)
        }
    } else if hay {
        seq![PartidaV { cabecera: cab, jugadas: bloques[i] }] + agrupa(bloques, i + 1, false, cab)
    } else {
        agrupa(bloques, i + 1, hay, cab)
    }
}

/// Every block that `agrupa` reads as a header is one that
/// `arregla_cabecera` accepts.
pub open spec fn agrupa_valido(bloques: Seq<Seq<char>>, i: int, hay: bool) -> bool
    decreases bloques.len() - i,
{
    if i < 0 || i >= bloques.len() {
        true
    } else if empieza_con(bloques[i], '[') {
        if !hay {
            cabecera_valida(bloques[i]) && agrupa_valido(bloques, i + 1, true)
        } else {
            agrupa_valido(bloques, i + 1, hay)
        }
    } else {
        agrupa_valido(bloques, i + 1, false)
    }
}

/// The blocks of a volume: its pieces between blank lines.
pub open spec fn bloques_de(texto: Seq<char>) -> Seq<Seq<char>> {
    trozos(texto, seq!['\n', '\n'])
}

pub open spec fn cabecera_vacia() -> CabeceraV {
    CabeceraV { sitio: seq![], blancas: seq![], negras: seq![] }
}

/// The games of the PGN text of a volume.
pub open spec fn partidas_de_spec(texto: Seq<char>) -> Seq<PartidaV> {
    agrupa(bloques_de(texto), 0, false, cabecera_vacia())
}

pub open spec fn partidas_validas(texto: Seq<char>) -> bool {
    agrupa_valido(bloques_de(texto), 0, false)
}

pub open spec fn vistas_partidas(v: Seq<Partida>) -> Seq<PartidaV> {
    v.map_values(|p: Partida| p@)
}

/// Splits the PGN text of a volume into its games.
pub fn partidas_de(texto: &str) -> (r: Vec<Partida>)
    requires
        partidas_validas(texto@),
    ensures
        vistas_partidas(r@) == partidas_de_spec(texto@),
{
    let chars = caracteres(texto);
    let sep = vec!['\n', '\n'];
    let bloques = divide(&chars, &sep);
    let ghost b = bloques_de(texto@);
    assert(sep@ =~= seq!['\n', '\n']);
    assert(vistas(bloques@) == b);
    let mut cabecera = Cabecera { sitio: String::new(), blancas: String::new(), negras: String::new() };
    assert(cabecera@ =~= cabecera_vacia());
    let mut arr_partidas: Vec<Partida> = Vec::new();
    let mut hay_cabecera = false;
    let mut i: usize = 0;
    assert(vistas_partidas(arr_partidas@) =~= Seq::<PartidaV>::empty());
    while i < bloques.len()
        invariant
            i <= bloques.len(),
            vistas(bloques@) == b,
            partidas_de_spec(texto@) == vistas_partidas(arr_partidas@) + agrupa(b, i as int, hay_cabecera, cabecera@),
            partidas_validas(texto@) == agrupa_valido(b, i as int, hay_cabecera),
            partidas_validas(texto@),
            b == bloques_de(texto@),
        decreases bloques.len() - i,
    {
        let bloque = &bloques[i];
        assert(bloque@ == b[i as int]);
        if bloque.len() > 0 && bloque[0] == '[' {
            if !hay_cabecera {
                let s = cadena(bloque);
                cabecera = arregla_cabecera(s.as_str());
                hay_cabecera = true;
            }
        } else {
            if hay_cabecera {
                let p = Partida { cabecera: cabecera.copia(), jugadas: cadena(bloque) };
                assert(p@ == PartidaV { cabecera: cabecera@, jugadas: b[i as int] });
                assert(vistas_partidas(arr_partidas@.push(p)) =~= vistas_partidas(arr_partidas@).push(p@));
                arr_partidas.push(p);
                hay_cabecera = false;
            }
        }
        i = i + 1;
    }
    arr_partidas
}

/// The header block is one that `arregla_cabecera` reads.
pub fn cabecera_legible(cabeza: &str) -> (b: bool)
    ensures
        b == cabecera_valida(cabeza@),
{
    let texto = caracteres(cabeza);
    let salto = vec!['\n'];
    assert(salto@ =~= seq!['\n']);
    let mut elems = divide(&texto, &salto);
    if elems.len() < 3 {
        let extra = vec!['[', 'B', 'l', 'a', 'c', 'k', ' ', '"', ' ', '"', ']'];
        assert(extra@ =~= linea_negras_vacia());
        assert(vistas(elems@.push(extra)) =~= vistas(elems@).push(extra@));
        elems.push(extra);
    }
    let ghost l = lineas_cabecera(cabeza@);
    assert(vistas(elems@) == l);
    if elems.len() < 3 {
        return false;
    }
    let comilla = vec!['"'];
    assert(comilla@ =~= seq!['"']);
    let mut i: usize = 0;
    while i < elems.len()
        invariant
            i <= elems.len(),
            vistas(elems@) == l,
            comilla@ == seq!['"'],
            l == lineas_cabecera(cabeza@),
            l.len() >= 3,
            forall|k: int| 0 <= k < i ==> trozos(#[trigger] l[k], seq!['"']).len() >= 2,
        decreases elems.len() - i,
    {
        let ele = divide(&elems[i], &comilla);
        assert(elems@[i as int]@ == l[i as int]);
        assert(vistas(ele@).len() == ele@.len());
        if ele.len() < 2 {
            assert(trozos(l[i as int], seq!['"']).len() < 2);
            return false;
        }
        i = i + 1;
    }
    true
}

/// The PGN text of a volume is one that `partidas_de` reads.
pub fn volumen_legible(texto: &str) -> (b: bool)
    ensures
        b == partidas_validas(texto@),
{
    let chars = caracteres(texto);
    let sep = vec!['\n', '\n'];
    let bloques = divide(&chars, &sep);
    let ghost b = bloques_de(texto@);
    assert(sep@ =~= seq!['\n', '\n']);
    assert(vistas(bloques@) == b);
    let mut hay_cabecera = false;
    let mut i: usize = 0;
    while i < bloques.len()
        invariant
            i <= bloques.len(),
            vistas(bloques@) == b,
            b == bloques_de(texto@),
            partidas_validas(texto@) == agrupa_valido(b, i as int, hay_cabecera),
        decreases bloques.len() - i,
    {
        let bloque = &bloques[i];
        assert(bloque@ == b[i as int]);
        if bloque.len() > 0 && bloque[0] == '[' {
            if !hay_cabecera {
                let s = cadena(bloque);
                if !cabecera_legible(s.as_str()) {
                    return false;
                }
                hay_cabecera = true;
            }
        } else {
            hay_cabecera = false;
        }
        i = i + 1;
    }
    true
}

/// The games of the ECO code `eco`, read from the PGN texts of the five
/// volumes `A00` to `E00`; a code of no volume has no games.
pub fn obtiene_partidas(eco: String, volumenes: &Vec<String>) -> (r: Vec<Partida>)
    requires
        volumenes.len() == 5,
        volumen_eco(eco@) matches Some(k) ==> partidas_validas(volumenes@[k]@),
    ensures
        vistas_partidas(r@) == (match volumen_eco(eco@) {
            Some(k) => partidas_de_spec(volumenes@[k]@),
            None => partidas_de_spec(seq![]),
        }),
{
    match selecciona_volumen(eco.as_str()) {
        Some(k) => partidas_de(volumenes[k].as_str()),
        None => {
            let vacio = String::new();
            proof {
                assert(bloques_de(vacio@) =~= seq![seq![]]);
                assert(agrupa_valido(seq![seq![]], 1, false));
            }
            partidas_de(vacio.as_str())
        }
    }
}

} // verus!
