use vstd::prelude::*;
use crate::patrones::{captura_campo, sin_numero_jugada, captura_linea_cabecera, quita_numero_jugada};
use crate::texto::{
    caracteres, cadena, recorta, recorta_spec, reemplaza, reemplaza_spec, busca, posicion,
    empieza_con, subcadena, lema_posicion, lema_reemplaza_longitud,
};

verus! {

// ---------------------------------------------------------------------------
// Moves and games
// ---------------------------------------------------------------------------

/// One entry of a line of a game: a move with its position, or one of the
/// tokens `(` and `)` that open and close a variation.
#[derive(Clone)]
pub struct MoveT {
    pub idx_jug: String,
    pub san: String,
    pub uci: String,
    pub num_jug: String,
    pub turno: String,
    pub fen: String,
    pub nag: String,
    pub comen: String,
    /// The lines of the variations that hang from this entry.
    pub sub_var: Vec<usize>,
    /// The nesting depth of the line, for printing.
    pub profundidad: String,
}

pub struct JugadaV {
    pub idx_jug: Seq<char>,
    pub san: Seq<char>,
    pub uci: Seq<char>,
    pub num_jug: Seq<char>,
    pub turno: Seq<char>,
    pub fen: Seq<char>,
    pub nag: Seq<char>,
    pub comen: Seq<char>,
    pub sub_var: Seq<usize>,
    pub profundidad: Seq<char>,
}

impl View for MoveT {
    type V = JugadaV;

    open spec fn view(&self) -> JugadaV {
        JugadaV {
            idx_jug: self.idx_jug@,
            san: self.san@,
            uci: self.uci@,
            num_jug: self.num_jug@,
            turno: self.turno@,
            fen: self.fen@,
            nag: self.nag@,
            comen: self.comen@,
            sub_var: self.sub_var@,
            profundidad: self.profundidad@,
        }
    }
}

/// The entry that `crea_jugada` builds: the nine given texts, no variations.
pub open spec fn jugada_nueva(
    idx_jug: Seq<char>,
    san: Seq<char>,
    uci: Seq<char>,
    num_jug: Seq<char>,
    turno: Seq<char>,
    fen: Seq<char>,
    nag: Seq<char>,
    comen: Seq<char>,
    profundidad: Seq<char>,
) -> JugadaV {
    JugadaV { idx_jug, san, uci, num_jug, turno, fen, nag, comen, sub_var: seq![], profundidad }
}

/// A copy of `v`.
pub fn copia_indices(v: &Vec<usize>) -> (r: Vec<usize>)
    ensures
        r@ == v@,
{
    let mut r: Vec<usize> = Vec::new();
    let mut i: usize = 0;
    while i < v.len()
        invariant
            i <= v.len(),
            r@ == v@.take(i as int),
        decreases v.len() - i,
    {
        r.push(v[i]);
        assert(v@.take(i + 1) == v@.take(i as int).push(v@[i as int]));
        i = i + 1;
    }
    assert(v@.take(v.len() as int) == v@);
    r
}

impl MoveT {
    /// Builds an entry from its texts, in the order index, SAN, UCI, move
    /// number, side, FEN, NAG, comment and depth; it has no variations.
    pub fn crea_jugada(
        elem1: String,
        elem2: String,
        elem3: String,
        elem4: String,
        elem5: String,
        elem6: String,
        elem7: String,
        elem8: String,
        elem9: String,
    ) -> (m: MoveT)
        ensures
            m@ == jugada_nueva(
                elem1@,
                elem2@,
                elem3@,
                elem4@,
                elem5@,
                elem6@,
                elem7@,
                elem8@,
                elem9@,
            ),
    {
        MoveT {
            idx_jug: elem1,
            san: elem2,
            uci: elem3,
            num_jug: elem4,
            turno: elem5,
            fen: elem6,
            nag: elem7,
            comen: elem8,
            sub_var: Vec::new(),
            profundidad: elem9,
        }
    }

    /// A copy of this entry.
    pub fn copia(&self) -> (r: MoveT)
        ensures
            r@ == self@,
    {
        MoveT {
            idx_jug: self.idx_jug.clone(),
            san: self.san.clone(),
            uci: self.uci.clone(),
            num_jug: self.num_jug.clone(),
            turno: self.turno.clone(),
            fen: self.fen.clone(),
            nag: self.nag.clone(),
            comen: self.comen.clone(),
            sub_var: copia_indices(&self.sub_var),
            profundidad: self.profundidad.clone(),
        }
    }
}

pub open spec fn vista_linea(l: Seq<MoveT>) -> Seq<JugadaV> {
    l.map_values(|m: MoveT| m@)
}

pub open spec fn vista_lineas(a: Seq<Vec<MoveT>>) -> Seq<Seq<JugadaV>> {
    a.map_values(|l: Vec<MoveT>| vista_linea(l@))
}

pub open spec fn vista_cadenas(v: Seq<String>) -> Seq<Seq<char>> {
    v.map_values(|s: String| s@)
}

/// A game being read: its header fields, its move text, its tokens and its
/// lines (line 0 is the main line, the others are variations).
#[derive(Clone)]
pub struct PartiT {
    pub cabecera: Vec<String>,
    pub pgn: String,
    pub movims: Vec<String>,
    pub arr_partida: Vec<Vec<MoveT>>,
    pub partida_json: String,
}

pub struct PartiTV {
    pub cabecera: Seq<Seq<char>>,
    pub pgn: Seq<char>,
    pub movims: Seq<Seq<char>>,
    pub arr_partida: Seq<Seq<JugadaV>>,
    pub partida_json: Seq<char>,
}

impl View for PartiT {
    type V = PartiTV;

    open spec fn view(&self) -> PartiTV {
        PartiTV {
            cabecera: vista_cadenas(self.cabecera@),
            pgn: self.pgn@,
            movims: vista_cadenas(self.movims@),
            arr_partida: vista_lineas(self.arr_partida@),
            partida_json: self.partida_json@,
        }
    }
}

/// A copy of a vector of strings.
pub fn copia_cadenas(v: &Vec<String>) -> (r: Vec<String>)
    ensures
        vista_cadenas(r@) == vista_cadenas(v@),
{
    let mut r: Vec<String> = Vec::new();
    let mut i: usize = 0;
    while i < v.len()
        invariant
            i <= v.len(),
            vista_cadenas(r@) == vista_cadenas(v@).take(i as int),
        decreases v.len() - i,
    {
        let s = v[i].clone();
        assert(vista_cadenas(r@.push(s)) =~= vista_cadenas(r@).push(s@));
        r.push(s);
        i = i + 1;
    }
    assert(vista_cadenas(v@).take(v.len() as int) =~= vista_cadenas(v@));
    r
}

/// A copy of a line.
pub fn copia_linea(l: &Vec<MoveT>) -> (r: Vec<MoveT>)
    ensures
        vista_linea(r@) == vista_linea(l@),
{
    let mut r: Vec<MoveT> = Vec::new();
    let mut i: usize = 0;
    while i < l.len()
        invariant
            i <= l.len(),
            vista_linea(r@) == vista_linea(l@).take(i as int),
        decreases l.len() - i,
    {
        let m = l[i].copia();
        assert(vista_linea(r@.push(m)) =~= vista_linea(r@).push(m@));
        r.push(m);
        i = i + 1;
    }
    assert(vista_linea(l@).take(l.len() as int) =~= vista_linea(l@));
    r
}

impl PartiT {
    /// An empty game.
    pub fn init() -> (p: PartiT)
        ensures
            p@.cabecera == Seq::<Seq<char>>::empty(),
            p@.pgn == Seq::<char>::empty(),
            p@.movims == Seq::<Seq<char>>::empty(),
            p@.arr_partida == Seq::<Seq<JugadaV>>::empty(),
            p@.partida_json == Seq::<char>::empty(),
    {
        let p = PartiT {
            cabecera: Vec::new(),
            pgn: String::new(),
            movims: Vec::new(),
            arr_partida: Vec::new(),
            partida_json: String::new(),
        };
        assert(p@.cabecera =~= Seq::<Seq<char>>::empty());
        assert(p@.movims =~= Seq::<Seq<char>>::empty());
        assert(p@.arr_partida =~= Seq::<Seq<JugadaV>>::empty());
        p
    }

    /// Replaces the move text.
    pub fn cambia_pgn(&mut self, cadena: String)
        ensures
            final(self)@ == (PartiTV { pgn: cadena@, ..old(self)@ }),
    {
        self.pgn = cadena;
    }

    /// Adds a header field at the end.
    pub fn cambia_cabecera(&mut self, campo: String)
        ensures
            final(self)@ == (PartiTV { cabecera: old(self)@.cabecera.push(campo@), ..old(self)@ }),
    {
        let ghost c = campo@;
        self.cabecera.push(campo);
        assert(vista_cadenas(self.cabecera@) =~= vista_cadenas(old(self).cabecera@).push(c));
    }

    /// A copy of this game.
    pub fn copia(&self) -> (r: PartiT)
        ensures
            r@ == self@,
    {
        let mut lineas: Vec<Vec<MoveT>> = Vec::new();
        let mut i: usize = 0;
        while i < self.arr_partida.len()
            invariant
                i <= self.arr_partida.len(),
                vista_lineas(lineas@) == vista_lineas(self.arr_partida@).take(i as int),
            decreases self.arr_partida.len() - i,
        {
            let l = copia_linea(&self.arr_partida[i]);
            assert(vista_lineas(lineas@.push(l)) =~= vista_lineas(lineas@).push(vista_linea(l@)));
            lineas.push(l);
            i = i + 1;
        }
        assert(vista_lineas(self.arr_partida@).take(self.arr_partida.len() as int) =~= vista_lineas(
            self.arr_partida@,
        ));
        PartiT {
            cabecera: copia_cadenas(&self.cabecera),
            pgn: self.pgn.clone(),
            movims: copia_cadenas(&self.movims),
            arr_partida: lineas,
            partida_json: self.partida_json.clone(),
        }
    }
}

// ---------------------------------------------------------------------------
// Header lines and move text
// ---------------------------------------------------------------------------

/// Line `i` is a header line: it begins with `[` and neither it nor any line
/// before it is empty (an empty line ends the header).
pub open spec fn es_linea_cabecera(lineas: Seq<Seq<char>>, i: int) -> bool {
    &&& empieza_con(lineas[i], '[')
    &&& forall|k: int| 0 <= k <= i ==> #[trigger] lineas[k].len() > 0
}

/// A quoted value without its first and last characters.
pub open spec fn quita_comillas(v: Seq<char>) -> Seq<char> {
    if v.len() >= 2 {
        v.subrange(1, v.len() - 1)
    } else {
        seq![]
    }
}

/// The (key, value) pairs of the header lines among the first `n` lines, in
/// order, with the value's quotes taken off.
pub open spec fn campos_de(lineas: Seq<Seq<char>>, n: int) -> Seq<(Seq<char>, Seq<char>)>
    decreases n,
{
    if n <= 0 {
        seq![]
    } else {
        campos_de(lineas, n - 1) + (if es_linea_cabecera(lineas, n - 1) {
            match captura_campo(lineas[n - 1]) {
                Some((k, v)) => seq![(k, quita_comillas(v))],
                None => seq![],
            }
        } else {
            seq![]
        })
    }
}

/// The other lines among the first `n`, each after a space.
pub open spec fn cuerpo_de(lineas: Seq<Seq<char>>, n: int) -> Seq<char>
    decreases n,
{
    if n <= 0 {
        seq![]
    } else {
        cuerpo_de(lineas, n - 1) + (if es_linea_cabecera(lineas, n - 1) {
            seq![]
        } else {
            seq![' '] + lineas[n - 1]
        })
    }
}

/// A captured header value without its first and last characters (the
/// quotes around it).
pub fn valor_sin_comillas(valor: &str) -> (r: String)
    ensures
        r@ == quita_comillas(valor@),
{
    let v = caracteres(valor);
    let sin = if v.len() >= 2 {
        subcadena(&v, 1, v.len() - 1)
    } else {
        Vec::new()
    };
    assert(sin@ == quita_comillas(valor@));
    cadena(&sin)
}

/// Every header line matches the header pattern.
pub open spec fn cabeceras_casan(lineas: Seq<Seq<char>>) -> bool {
    forall|i: int|
        0 <= i < lineas.len() && es_linea_cabecera(lineas, i) ==> (#[trigger] captura_campo(
            lineas[i],
        )) is Some
}

pub open spec fn vista_campos(c: Seq<(String, String)>) -> Seq<(Seq<char>, Seq<char>)> {
    c.map_values(|p: (String, String)| (p.0@, p.1@))
}

/// Splits the lines of a game into its header fields and its move text; no
/// result when a header line does not match the header pattern.
pub fn campos_cabecera(lineas: &Vec<String>) -> (r: Option<(Vec<(String, String)>, Vec<char>)>)
    ensures
        r is Some <==> cabeceras_casan(vista_cadenas(lineas@)),
        r matches Some((c, b)) ==> vista_campos(c@) == campos_de(
            vista_cadenas(lineas@),
            lineas@.len() as int,
        ) && b@ == cuerpo_de(vista_cadenas(lineas@), lineas@.len() as int),
{
    let ghost l = vista_cadenas(lineas@);
    let mut campos: Vec<(String, String)> = Vec::new();
    let mut cuerpo: Vec<char> = Vec::new();
    let mut es_cabecera = true;
    let mut i: usize = 0;
    while i < lineas.len()
        invariant
            i <= lineas.len(),
            l == vista_cadenas(lineas@),
            es_cabecera == (forall|k: int| 0 <= k < i ==> #[trigger] l[k].len() > 0),
            vista_campos(campos@) == campos_de(l, i as int),
            cuerpo@ == cuerpo_de(l, i as int),
            forall|k: int| 0 <= k < i && es_linea_cabecera(l, k) ==> (#[trigger] captura_campo(l[k])) is Some,
        decreases lineas.len() - i,
    {
        let linea = caracteres(lineas[i].as_str());
        assert(linea@ == l[i as int]);
        if linea.len() == 0 {
            es_cabecera = false;
        }
        assert(es_cabecera == (forall|k: int| 0 <= k <= i ==> #[trigger] l[k].len() > 0)) by {
            if !es_cabecera && linea.len() > 0 {
                let k = choose|k: int| 0 <= k < i && !(#[trigger] l[k].len() > 0);
                assert(0 <= k <= i && !(l[k].len() > 0));
            }
        }
        if linea.len() > 0 && linea[0] == '[' && es_cabecera {
            assert(es_linea_cabecera(l, i as int));
            match captura_linea_cabecera(lineas[i].as_str()) {
                None => {
                    assert(!cabeceras_casan(l));
                    return None;
                },
                Some((clave, valor)) => {
                    let par = (clave, valor_sin_comillas(valor.as_str()));
                    assert(vista_campos(campos@.push(par)) =~= vista_campos(campos@).push((par.0@, par.1@)));
                    campos.push(par);
                },
            }
        } else {
            assert(!es_linea_cabecera(l, i as int));
            let ghost antes = cuerpo@;
            cuerpo.push(' ');
            let mut k: usize = 0;
            while k < linea.len()
                invariant
                    k <= linea.len(),
                    cuerpo@ == antes + seq![' '] + linea@.take(k as int),
                decreases linea.len() - k,
            {
                cuerpo.push(linea[k]);
                assert(linea@.take(k + 1) == linea@.take(k as int).push(linea@[k as int]));
                k = k + 1;
            }
            assert(linea@.take(linea.len() as int) == linea@);
            assert(cuerpo@ =~= antes + (seq![' '] + l[i as int]));
        }
        i = i + 1;
    }
    Some((campos, cuerpo))
}

/// The value of the last field with key `k` (later fields replace earlier ones).
pub open spec fn busca_campo(c: Seq<(Seq<char>, Seq<char>)>, k: Seq<char>) -> Option<Seq<char>>
    decreases c.len(),
{
    if c.len() == 0 {
        None
    } else if c.last().0 == k {
        Some(c.last().1)
    } else {
        busca_campo(c.drop_last(), k)
    }
}

/// The value of the field `k`, with its single quotes made spaces when
/// `sin_apostrofos`, or `defecto` when there is no such field.
pub open spec fn campo_o(
    c: Seq<(Seq<char>, Seq<char>)>,
    k: Seq<char>,
    defecto: Seq<char>,
    sin_apostrofos: bool,
) -> Seq<char> {
    match busca_campo(c, k) {
        Some(v) => if sin_apostrofos {
            reemplaza_spec(v, '\'', seq![' '])
        } else {
            v
        },
        None => defecto,
    }
}

/// The eleven header fields of a game, in their fixed order, with their
/// defaults: Event, Site, Date, Round, White, Black, Result, ECO, WhiteElo,
/// BlackElo and FEN.
pub open spec fn cabecera_de(c: Seq<(Seq<char>, Seq<char>)>) -> Seq<Seq<char>> {
    seq![
        campo_o(c, "Event"@, "?"@, true),
        campo_o(c, "Site"@, "?"@, true),
        campo_o(c, "Date"@, "????-??-??"@, false),
        campo_o(c, "Round"@, "?"@, false),
        campo_o(c, "White"@, "?"@, true),
        campo_o(c, "Black"@, "?"@, true),
        campo_o(c, "Result"@, "*"@, false),
        campo_o(c, "ECO"@, "???"@, false),
        campo_o(c, "WhiteElo"@, "0"@, false),
        campo_o(c, "BlackElo"@, "0"@, false),
        campo_o(c, "FEN"@, "rnbqkbnr/pppppppp/8/8/8/8/PPPPPPPP/RNBQKBNR w KQkq - 0 1"@, false),
    ]
}

/// `v` is the value of the last field named `k` among `c`.
pub open spec fn ultimo_valor(c: Seq<(Seq<char>, Seq<char>)>, k: Seq<char>, v: Seq<char>) -> bool {
    exists|i: int| 0 <= i < c.len() && c[i].0 == k && c[i].1 == v && forall|j: int| i < j < c.len() ==> (#[trigger] c[j]).0 != k
}

/// `x` is what a header field reads from the fields `c`: the value of the
/// last field named `k` (its single quotes made spaces when `sin_apostrofos`),
/// or `defecto` when no field has that name.
pub open spec fn campo_leido(
    c: Seq<(Seq<char>, Seq<char>)>,
    k: Seq<char>,
    defecto: Seq<char>,
    sin_apostrofos: bool,
    x: Seq<char>,
) -> bool {
    &&& forall|v: Seq<char>| #[trigger] ultimo_valor(c, k, v) ==> x == (if sin_apostrofos {
        reemplaza_spec(v, '\'', seq![' '])
    } else {
        v
    })
    &&& (forall|i: int| 0 <= i < c.len() ==> (#[trigger] c[i]).0 != k) ==> x == defecto
}

proof fn lema_busca_campo(c: Seq<(Seq<char>, Seq<char>)>, k: Seq<char>)
    ensures
        forall|v: Seq<char>| #[trigger] ultimo_valor(c, k, v) ==> busca_campo(c, k) == Some(v),
        (forall|i: int| 0 <= i < c.len() ==> (#[trigger] c[i]).0 != k) ==> busca_campo(c, k) is None,
    decreases c.len(),
{
    if c.len() > 0 {
        let d = c.drop_last();
        lema_busca_campo(d, k);
        assert forall|v: Seq<char>| #[trigger] ultimo_valor(c, k, v) implies busca_campo(c, k) == Some(v) by {
            let i = choose|i: int| 0 <= i < c.len() && c[i].0 == k && c[i].1 == v && forall|j: int| i < j < c.len() ==> (#[trigger] c[j]).0 != k;
            if i < c.len() - 1 {
                assert(c.last().0 != k);
                assert forall|j: int| i < j < d.len() implies (#[trigger] d[j]).0 != k by {
                    assert(d[j] == c[j]);
                }
                assert(d[i] == c[i]);
                assert(ultimo_valor(d, k, v));
            }
        }
        if forall|i: int| 0 <= i < c.len() ==> (#[trigger] c[i]).0 != k {
            assert(c.last() == c[c.len() - 1]);
            assert forall|i: int| 0 <= i < d.len() implies (#[trigger] d[i]).0 != k by {
                assert(d[i] == c[i]);
            }
        }
    }
}

proof fn lema_campo_o(c: Seq<(Seq<char>, Seq<char>)>, k: Seq<char>, defecto: Seq<char>, sin_apostrofos: bool)
    ensures
        campo_leido(c, k, defecto, sin_apostrofos, campo_o(c, k, defecto, sin_apostrofos)),
{
    lema_busca_campo(c, k);
}

/// The header of a game has its eleven fields in a fixed order: Event, Site,
/// Date, Round, White, Black, Result, ECO, WhiteElo, BlackElo and FEN, each
/// read from the last header line with that tag, or its default without one.
pub proof fn ley_orden_cabecera(c: Seq<(Seq<char>, Seq<char>)>)
    ensures
        cabecera_de(c).len() == 11,
        campo_leido(c, "Event"@, "?"@, true, cabecera_de(c)[0]),
        campo_leido(c, "Site"@, "?"@, true, cabecera_de(c)[1]),
        campo_leido(c, "Date"@, "????-??-??"@, false, cabecera_de(c)[2]),
        campo_leido(c, "Round"@, "?"@, false, cabecera_de(c)[3]),
        campo_leido(c, "White"@, "?"@, true, cabecera_de(c)[4]),
        campo_leido(c, "Black"@, "?"@, true, cabecera_de(c)[5]),
        campo_leido(c, "Result"@, "*"@, false, cabecera_de(c)[6]),
        campo_leido(c, "ECO"@, "???"@, false, cabecera_de(c)[7]),
        campo_leido(c, "WhiteElo"@, "0"@, false, cabecera_de(c)[8]),
        campo_leido(c, "BlackElo"@, "0"@, false, cabecera_de(c)[9]),
        campo_leido(c, "FEN"@, "rnbqkbnr/pppppppp/8/8/8/8/PPPPPPPP/RNBQKBNR w KQkq - 0 1"@, false, cabecera_de(c)[10]),
{
    lema_campo_o(c, "Event"@, "?"@, true);
    lema_campo_o(c, "Site"@, "?"@, true);
    lema_campo_o(c, "Date"@, "????-??-??"@, false);
    lema_campo_o(c, "Round"@, "?"@, false);
    lema_campo_o(c, "White"@, "?"@, true);
    lema_campo_o(c, "Black"@, "?"@, true);
    lema_campo_o(c, "Result"@, "*"@, false);
    lema_campo_o(c, "ECO"@, "???"@, false);
    lema_campo_o(c, "WhiteElo"@, "0"@, false);
    lema_campo_o(c, "BlackElo"@, "0"@, false);
    lema_campo_o(c, "FEN"@, "rnbqkbnr/pppppppp/8/8/8/8/PPPPPPPP/RNBQKBNR w KQkq - 0 1"@, false);
}

fn busca_clave(campos: &Vec<(String, String)>, clave: &String) -> (r: Option<String>)
    ensures
        r matches Some(v) ==> busca_campo(vista_campos(campos@), clave@) == Some(v@),
        r is None ==> busca_campo(vista_campos(campos@), clave@) is None,
{
    let ghost c = vista_campos(campos@);
    let mut i: usize = campos.len();
    assert(c.take(campos.len() as int) =~= c);
    while i > 0
        invariant
            i <= campos.len(),
            c == vista_campos(campos@),
            busca_campo(c, clave@) == busca_campo(c.take(i as int), clave@),
        decreases i,
    {
        let ghost t = c.take(i as int);
        assert(t.last() == (campos@[i - 1].0@, campos@[i - 1].1@));
        assert(t.drop_last() =~= c.take(i - 1));
        if campos[i - 1].0 == *clave {
            return Some(campos[i - 1].1.clone());
        }
        i = i - 1;
    }
    assert(c.take(0) =~= Seq::<(Seq<char>, Seq<char>)>::empty());
    None
}

fn campo_o_defecto(campos: &Vec<(String, String)>, clave: &str, defecto: &str, sin_apostrofos: bool) -> (r: String)
    ensures
        r@ == campo_o(vista_campos(campos@), clave@, defecto@, sin_apostrofos),
{
    let k = String::from_str(clave);
    match busca_clave(campos, &k) {
        Some(v) => {
            if sin_apostrofos {
                let espacio = vec![' '];
                assert(espacio@ =~= seq![' ']);
                cadena(&reemplaza(&caracteres(v.as_str()), '\'', &espacio))
            } else {
                v
            }
        },
        None => String::from_str(defecto),
    }
}

/// The eleven header fields of a game from its (key, value) pairs.
pub fn compone_cabecera(campos: &Vec<(String, String)>) -> (r: Vec<String>)
    ensures
        vista_cadenas(r@) == cabecera_de(vista_campos(campos@)),
{
    let mut r: Vec<String> = Vec::new();
    r.push(campo_o_defecto(campos, "Event", "?", true));
    r.push(campo_o_defecto(campos, "Site", "?", true));
    r.push(campo_o_defecto(campos, "Date", "????-??-??", false));
    r.push(campo_o_defecto(campos, "Round", "?", false));
    r.push(campo_o_defecto(campos, "White", "?", true));
    r.push(campo_o_defecto(campos, "Black", "?", true));
    r.push(campo_o_defecto(campos, "Result", "*", false));
    r.push(campo_o_defecto(campos, "ECO", "???", false));
    r.push(campo_o_defecto(campos, "WhiteElo", "0", false));
    r.push(campo_o_defecto(campos, "BlackElo", "0", false));
    r.push(
        campo_o_defecto(
            campos,
            "FEN",
            "rnbqkbnr/pppppppp/8/8/8/8/PPPPPPPP/RNBQKBNR w KQkq - 0 1",
            false,
        ),
    );
    assert(vista_cadenas(r@) =~= cabecera_de(vista_campos(campos@)));
    r
}

// ---------------------------------------------------------------------------
// Tokens of the move text
// ---------------------------------------------------------------------------

/// The move text with spaces put inside the parentheses and single and double
/// quotes made spaces, then trimmed.
pub open spec fn prepara_texto(pgn: Seq<char>) -> Seq<char> {
    let t1 = reemplaza_spec(pgn, '(', seq!['(', ' ']);
    let t2 = reemplaza_spec(t1, ')', seq![' ', ')']);
    let t3 = reemplaza_spec(t2, '\'', seq![' ']);
    let t4 = reemplaza_spec(t3, '"', seq![' ']);
    recorta_spec(t4)
}

/// Where the first token of `u` ends: after the first `}` when `u` begins a
/// comment with `{`, else at the first space; 0 when there is no such place.
pub open spec fn corte(u: Seq<char>) -> int {
    if empieza_con(u, '{') {
        match posicion(u, '}') {
            Some(p) => p + 1,
            None => 0,
        }
    } else {
        match posicion(u, ' ') {
            Some(p) => p,
            None => 0,
        }
    }
}

pub proof fn lema_corte(u: Seq<char>)
    ensures
        0 <= corte(u) <= u.len(),
{
    lema_posicion(u, '}');
    lema_posicion(u, ' ');
}

/// The tokens of a prepared move text: each round drops the leading move
/// number, cuts the first token off, and makes the backslashes of the rest
/// spaces; a rest with no place to cut is the last token.  (The branch for a
/// result longer than `t` is never taken: the removal keeps a suffix.)
pub open spec fn trocea(t: Seq<char>) -> Seq<Seq<char>>
    decreases t.len(),
{
    if t.len() == 0 {
        seq![]
    } else {
        let u = sin_numero_jugada(t);
        let pos = corte(u);
        if pos > 0 && u.len() <= t.len() {
            proof {
                lema_corte(u);
                lema_reemplaza_longitud(u.skip(pos), '\\', ' ');
            }
            seq![u.take(pos)] + trocea(reemplaza_spec(u.skip(pos), '\\', seq![' ']))
        } else {
            seq![u]
        }
    }
}

/// `t` without the tokens that are a single space.
pub open spec fn sin_espacios(t: Seq<Seq<char>>) -> Seq<Seq<char>>
    decreases t.len(),
{
    if t.len() == 0 {
        seq![]
    } else {
        sin_espacios(t.drop_last()) + (if t.last() == seq![' '] {
            seq![]
        } else {
            seq![t.last()]
        })
    }
}

/// No token left by `sin_espacios` is a single space, and it keeps no more
/// tokens than it was given.
pub proof fn ley_fichas_sin_espacios(t: Seq<Seq<char>>)
    ensures
        forall|k: int| 0 <= k < sin_espacios(t).len() ==> #[trigger] sin_espacios(t)[k] != seq![' '],
        sin_espacios(t).len() <= t.len(),
    decreases t.len(),
{
    if t.len() > 0 {
        ley_fichas_sin_espacios(t.drop_last());
        let a = sin_espacios(t.drop_last());
        assert forall|k: int| 0 <= k < sin_espacios(t).len() implies #[trigger] sin_espacios(t)[k] != seq![' '] by {
            if k < a.len() {
                assert(sin_espacios(t)[k] == a[k]);
            }
        }
    }
}

/// The tokens of the move text `pgn`.
pub open spec fn tokens_de(pgn: Seq<char>) -> Seq<Seq<char>> {
    trocea(prepara_texto(pgn))
}

fn reemplaza_por(v: &Vec<char>, de: char, a: char, b: char, dos: bool) -> (r: Vec<char>)
    ensures
        r@ == reemplaza_spec(v@, de, if dos { seq![a, b] } else { seq![a] }),
{
    let mut por: Vec<char> = Vec::new();
    por.push(a);
    if dos {
        por.push(b);
    }
    assert(por@ =~= (if dos { seq![a, b] } else { seq![a] }));
    reemplaza(v, de, &por)
}

/// Cuts the first token off a text whose move number is gone: the token,
/// and the rest with its backslashes made spaces; nothing when there is no
/// place to cut (the whole text is the last token).
pub fn corta_ficha(u: &Vec<char>) -> (r: Option<(Vec<char>, Vec<char>)>)
    ensures
        r is Some <==> corte(u@) > 0,
        r matches Some((f, resto)) ==> f@ == u@.take(corte(u@)) && resto@ == reemplaza_spec(
            u@.skip(corte(u@)),
            '\\',
            seq![' '],
        ),
{
    proof {
        lema_posicion(u@, '}');
        lema_posicion(u@, ' ');
    }
    let pos: usize = if u.len() > 0 && u[0] == '{' {
        match busca(u, '}') {
            Some(p) => p + 1,
            None => 0,
        }
    } else {
        match busca(u, ' ') {
            Some(p) => p,
            None => 0,
        }
    };
    assert(pos as int == corte(u@));
    if pos == 0 {
        return None;
    }
    let primero = subcadena(u, 0, pos);
    let resto = subcadena(u, pos, u.len());
    assert(u@.subrange(0, pos as int) == u@.take(pos as int));
    assert(u@.subrange(pos as int, u@.len() as int) == u@.skip(pos as int));
    let espacio = vec![' '];
    assert(espacio@ =~= seq![' ']);
    Some((primero, reemplaza(&resto, '\\', &espacio)))
}

/// Cuts the move text of the game into tokens and adds them to its tokens,
/// leaving out the tokens that are a single space.
pub fn ahorma_jugadas(partida: &mut PartiT)
    ensures
        final(partida)@ == (PartiTV {
            movims: sin_espacios(old(partida)@.movims + tokens_de(old(partida)@.pgn)),
            ..old(partida)@
        }),
{
    let pgn = caracteres(partida.pgn.as_str());
    let t1 = reemplaza_por(&pgn, '(', '(', ' ', true);
    let t2 = reemplaza_por(&t1, ')', ' ', ')', true);
    let t3 = reemplaza_por(&t2, '\'', ' ', ' ', false);
    let t4 = reemplaza_por(&t3, '"', ' ', ' ', false);
    let mut token = recorta(&t4);
    let ghost t0 = token@;
    assert(t0 == prepara_texto(old(partida)@.pgn));
    let mut nuevos: Vec<String> = Vec::new();
    while token.len() > 0
        invariant
            trocea(t0) == vista_cadenas(nuevos@) + trocea(token@),
        decreases token.len(),
    {
        let s = cadena(&token);
        let u_s = quita_numero_jugada(s.as_str());
        let u = caracteres(u_s.as_str());
        let ghost tt = token@;
        assert(u@ == sin_numero_jugada(tt));
        proof {
            lema_corte(u@);
        }
        match corta_ficha(&u) {
            Some((primero, resto)) => {
                let p = cadena(&primero);
                assert(vista_cadenas(nuevos@.push(p)) =~= vista_cadenas(nuevos@).push(p@));
                nuevos.push(p);
                proof {
                    lema_reemplaza_longitud(u@.skip(corte(u@)), '\\', ' ');
                }
                token = resto;
                assert(trocea(t0) =~= vista_cadenas(nuevos@) + trocea(token@));
            },
            None => {
                let ultimo = cadena(&u);
                assert(vista_cadenas(nuevos@.push(ultimo)) =~= vista_cadenas(nuevos@).push(ultimo@));
                nuevos.push(ultimo);
                token = Vec::new();
                assert(trocea(token@) =~= Seq::<Seq<char>>::empty());
                assert(trocea(t0) =~= vista_cadenas(nuevos@) + trocea(token@));
            },
        }
    }
    assert(trocea(token@) =~= Seq::<Seq<char>>::empty());
    let mut todas = copia_cadenas(&partida.movims);
    let mut j: usize = 0;
    while j < nuevos.len()
        invariant
            j <= nuevos.len(),
            partida@ == old(partida)@,
            vista_cadenas(todas@) == vista_cadenas(partida.movims@) + vista_cadenas(nuevos@).take(j as int),
        decreases nuevos.len() - j,
    {
        let x = nuevos[j].clone();
        assert(vista_cadenas(todas@.push(x)) =~= vista_cadenas(todas@).push(x@));
        assert(vista_cadenas(nuevos@).take(j + 1) =~= vista_cadenas(nuevos@).take(j as int).push(x@));
        todas.push(x);
        j = j + 1;
    }
    assert(vista_cadenas(nuevos@).take(j as int) =~= vista_cadenas(nuevos@));
    let ghost todos = vista_cadenas(todas@);
    let mut movims: Vec<String> = Vec::new();
    let mut k: usize = 0;
    while k < todas.len()
        invariant
            k <= todas.len(),
            partida@ == old(partida)@,
            todos == vista_cadenas(todas@),
            vista_cadenas(movims@) == sin_espacios(todos.take(k as int)),
        decreases todas.len() - k,
    {
        let x = todas[k].clone();
        assert(x@ == todos[k as int]);
        assert(todos.take(k + 1).drop_last() =~= todos.take(k as int));
        let xc = caracteres(x.as_str());
        if !(xc.len() == 1 && xc[0] == ' ') {
            assert(x@ != seq![' ']);
            assert(vista_cadenas(movims@.push(x)) =~= vista_cadenas(movims@).push(x@));
            movims.push(x);
        } else {
            assert(x@ =~= seq![' ']);
        }
        k = k + 1;
    }
    assert(todos.take(k as int) =~= todos);
    partida.movims = movims;
}

// ---------------------------------------------------------------------------
// Reading a game
// ---------------------------------------------------------------------------

/// The game after its header: the eleven fields added to its header, and its
/// move text, trimmed.
pub open spec fn con_cabecera(p: PartiTV, lineas: Seq<Seq<char>>) -> PartiTV {
    PartiTV {
        cabecera: p.cabecera + cabecera_de(campos_de(lineas, lineas.len() as int)),
        pgn: recorta_spec(cuerpo_de(lineas, lineas.len() as int)),
        ..p
    }
}

/// The game after its move text is cut into tokens.
pub open spec fn con_tokens(p: PartiTV) -> PartiTV {
    PartiTV { movims: sin_espacios(p.movims + tokens_de(p.pgn)), ..p }
}

/// Reads the header and the move text of the lines of a game into `partida`,
/// and hands back a copy with its tokens. Every header line must match the
/// header pattern; `campos_cabecera` tells beforehand whether they do.
pub fn ahorma_partida(partida: &mut PartiT, parti: &Vec<String>) -> (r: PartiT)
    requires
        cabeceras_casan(vista_cadenas(parti@)),
    ensures
        final(partida)@ == con_cabecera(old(partida)@, vista_cadenas(parti@)),
        r@ == con_tokens(final(partida)@),
{
    let ghost l = vista_cadenas(parti@);
    let (campos, cuerpo) = campos_cabecera(parti).unwrap();
    let cab = compone_cabecera(&campos);
    let ghost c = cabecera_de(campos_de(l, l.len() as int));
    assert(vista_cadenas(cab@) == c);
    let mut i: usize = 0;
    while i < cab.len()
        invariant
            i <= cab.len(),
            vista_cadenas(cab@) == c,
            partida@ == (PartiTV { cabecera: old(partida)@.cabecera + c.take(i as int), ..old(partida)@ }),
        decreases cab.len() - i,
    {
        let x = cab[i].clone();
        assert(x@ == c[i as int]);
        partida.cambia_cabecera(x);
        assert(old(partida)@.cabecera + c.take(i + 1) =~= (old(partida)@.cabecera + c.take(i as int)).push(c[i as int]));
        i = i + 1;
    }
    assert(c.take(cab.len() as int) =~= c);
    partida.cambia_pgn(cadena(&recorta(&cuerpo)));
    let mut clon = partida.copia();
    ahorma_jugadas(&mut clon);
    clon
}

/// The two lines that the moves of a game are read from: a FEN header line
/// with the starting position, and the moves with their line breaks made
/// spaces.
pub open spec fn lineas_partida(jugadas: Seq<char>, fen: Seq<char>) -> Seq<Seq<char>> {
    seq![
        seq!['[', 'F', 'E', 'N', ' ', '"'] + fen + seq!['"', ']'],
        reemplaza_spec(jugadas, '\n', seq![' ']),
    ]
}

pub open spec fn partida_vacia() -> PartiTV {
    PartiTV {
        cabecera: seq![],
        pgn: seq![],
        movims: seq![],
        arr_partida: seq![],
        partida_json: seq![],
    }
}

/// The game that the moves `jugadas` from the position `fen` give, with its
/// header and tokens, ready to be checked against the chess engine; nothing
/// when one of its header lines does not match the header pattern.
pub fn prepara_partida(jugadas: &String, fen: &String) -> (r: Option<PartiT>)
    ensures
        r is Some <==> cabeceras_casan(lineas_partida(jugadas@, fen@)),
        r matches Some(p) ==> p@ == con_tokens(con_cabecera(partida_vacia(), lineas_partida(jugadas@, fen@))),
{
    let mut l0: Vec<char> = Vec::new();
    l0.push('[');
    l0.push('F');
    l0.push('E');
    l0.push('N');
    l0.push(' ');
    l0.push('"');
    let f = caracteres(fen.as_str());
    let mut k: usize = 0;
    while k < f.len()
        invariant
            k <= f.len(),
            l0@ == seq!['[', 'F', 'E', 'N', ' ', '"'] + f@.take(k as int),
        decreases f.len() - k,
    {
        l0.push(f[k]);
        assert(f@.take(k + 1) == f@.take(k as int).push(f@[k as int]));
        k = k + 1;
    }
    assert(f@.take(f.len() as int) == f@);
    let ghost antes = l0@;
    l0.push('"');
    l0.push(']');
    assert(l0@ =~= seq!['[', 'F', 'E', 'N', ' ', '"'] + fen@ + seq!['"', ']']);
    let espacio = vec![' '];
    assert(espacio@ =~= seq![' ']);
    let l1 = reemplaza(&caracteres(jugadas.as_str()), '\n', &espacio);
    let mut lineas: Vec<String> = Vec::new();
    let s0 = cadena(&l0);
    let s1 = cadena(&l1);
    let ghost v0 = s0@;
    let ghost v1 = s1@;
    lineas.push(s0);
    lineas.push(s1);
    assert(vista_cadenas(lineas@)[0] == v0);
    assert(vista_cadenas(lineas@)[1] == v1);
    assert(vista_cadenas(lineas@) =~= lineas_partida(jugadas@, fen@));
    let mut partida_t = PartiT::init();
    assert(partida_t@ == partida_vacia());
    if campos_cabecera(&lineas).is_none() {
        return None;
    }
    Some(ahorma_partida(&mut partida_t, &lineas))
}

} // verus!
