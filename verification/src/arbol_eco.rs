use vstd::prelude::*;
use crate::arbol_subeco::{Partida, PartidaV, vistas_partidas};

verus! {

/// The tree of ECO codes and the tree of the games of a code stand in the
/// application; the library decides where each row goes.
pub struct ArbolECO {}

/// A row of the tree of ECO codes: its id, the id of its parent (`0` for a
/// root) and its text.
pub struct Datos {
    pub id: String,
    pub parent: String,
    pub data: String,
}

pub struct DatosV {
    pub id: Seq<char>,
    pub parent: Seq<char>,
    pub data: Seq<char>,
}

impl View for Datos {
    type V = DatosV;

    open spec fn view(&self) -> DatosV {
        DatosV { id: self.id@, parent: self.parent@, data: self.data@ }
    }
}

pub open spec fn vista_datos(v: Seq<Datos>) -> Seq<DatosV> {
    v.map_values(|d: Datos| d@)
}

impl Datos {
    pub fn init(id: String, parent: String, data: String) -> (d: Datos)
        ensures
            d@ == (DatosV { id: id@, parent: parent@, data: data@ }),
    {
        Datos { id, parent, data }
    }
}

pub open spec fn fila(id: Seq<char>, parent: Seq<char>, data: Seq<char>) -> DatosV {
    DatosV { id, parent, data }
}

/// The rows of the tree of ECO codes: the root `ECO` and the five volumes.
pub open spec fn filas_eco() -> Seq<DatosV> {
    seq![
        fila("ECO"@, "0"@, " "@),
        fila("A00"@, "ECO"@, "Aperturas de flanco"@),
        fila("B00"@, "ECO"@, "Aperturas semiabiertas"@),
        fila("C00"@, "ECO"@, "Def. Francesa y abiertas"@),
        fila("D00"@, "ECO"@, "Cerradas y Grunfeld"@),
        fila("E00"@, "ECO"@, "Defensas Indias"@),
    ]
}

/// The parent of row `i` in the tree: none for a row whose parent is `0`;
/// otherwise the last row before it whose id is its parent, or none.
pub open spec fn padre_en(d: Seq<DatosV>, i: int, j: int) -> Option<int>
    decreases j,
{
    if j <= 0 {
        None
    } else if d[j - 1].id == d[i].parent {
        Some(j - 1)
    } else {
        padre_en(d, i, j - 1)
    }
}

pub open spec fn padre_tabla(d: Seq<DatosV>, i: int) -> Option<int> {
    if d[i].parent == seq!['0'] {
        None
    } else {
        padre_en(d, i, i)
    }
}

pub open spec fn vista_padres(v: Seq<Option<usize>>) -> Seq<Option<int>> {
    v.map_values(|o: Option<usize>| match o {
        Some(x) => Some(x as int),
        None => None,
    })
}

fn busca_padre(data: &Vec<Datos>, i: usize) -> (r: Option<usize>)
    requires
        i < data@.len(),
    ensures
        match r {
            Some(x) => padre_en(vista_datos(data@), i as int, i as int) == Some(x as int),
            None => padre_en(vista_datos(data@), i as int, i as int) is None,
        },
{
    let ghost d = vista_datos(data@);
    let mut j: usize = i;
    while j > 0
        invariant
            j <= i,
            i < data@.len(),
            d == vista_datos(data@),
            padre_en(d, i as int, i as int) == padre_en(d, i as int, j as int),
        decreases j,
    {
        assert(data@[j - 1]@ == d[j - 1]);
        assert(data@[i as int]@ == d[i as int]);
        if data[j - 1].id == data[i].parent {
            return Some(j - 1);
        }
        j = j - 1;
    }
    None
}

/// The key that groups the games of a code: its ECO code and its opening,
/// written one after the other.
pub open spec fn clave_partida(p: PartidaV) -> Seq<char> {
    p.cabecera.sitio + p.cabecera.blancas
}

/// The first game among the first `j` with the key of game `i`.
pub open spec fn primero_con_clave(v: Seq<PartidaV>, i: int, j: int) -> Option<int>
    decreases j,
{
    if j <= 0 {
        None
    } else {
        match primero_con_clave(v, i, j - 1) {
            Some(k) => Some(k),
            None => if clave_partida(v[j - 1]) == clave_partida(v[i]) {
                Some(j - 1)
            } else {
                None
            },
        }
    }
}

/// Where game `i` hangs in the tree of games: under the first earlier game
/// with its code and opening, or at the root when there is none.
pub open spec fn padre_central(v: Seq<PartidaV>, i: int) -> Option<int> {
    primero_con_clave(v, i, i)
}

proof fn lema_primero(v: Seq<PartidaV>, i: int, j: int)
    requires
        0 <= j,
    ensures
        primero_con_clave(v, i, j) matches Some(k) ==> {
            &&& 0 <= k < j
            &&& clave_partida(v[k]) == clave_partida(v[i])
            &&& forall|m: int| 0 <= m < k ==> clave_partida(#[trigger] v[m]) != clave_partida(v[i])
        },
        primero_con_clave(v, i, j) is None ==> forall|m: int|
            0 <= m < j ==> clave_partida(#[trigger] v[m]) != clave_partida(v[i]),
    decreases j,
{
    if j > 0 {
        lema_primero(v, i, j - 1);
    }
}

proof fn lema_ninguno(v: Seq<PartidaV>, i: int, j: int)
    requires
        0 <= j,
        forall|m: int| 0 <= m < j ==> clave_partida(#[trigger] v[m]) != clave_partida(v[i]),
    ensures
        primero_con_clave(v, i, j) is None,
    decreases j,
{
    if j > 0 {
        lema_ninguno(v, i, j - 1);
    }
}

/// In the tree of the games of a code, a game hangs only from a game at the
/// root: the tree has two levels.
pub proof fn ley_arbol_central_dos_niveles(v: Seq<PartidaV>, i: int)
    requires
        0 <= i < v.len(),
        padre_central(v, i) is Some,
    ensures
        padre_central(v, padre_central(v, i)->0) is None,
        padre_central(v, i)->0 < i,
{
    lema_primero(v, i, i);
    let j = padre_central(v, i)->0;
    lema_ninguno(v, j, j);
}

proof fn lema_padre_en(d: Seq<DatosV>, i: int, j: int)
    requires
        0 <= j,
    ensures
        padre_en(d, i, j) matches Some(k) ==> {
            &&& 0 <= k < j
            &&& d[k].id == d[i].parent
            &&& forall|m: int| k < m < j ==> (#[trigger] d[m]).id != d[i].parent
        },
        padre_en(d, i, j) is None ==> forall|m: int| 0 <= m < j ==> (#[trigger] d[m]).id != d[i].parent,
    decreases j,
{
    if j > 0 {
        lema_padre_en(d, i, j - 1);
    }
}

/// A row of the tree of ECO codes hangs from the nearest earlier row whose
/// id is its parent; a row whose parent is `0`, or whose parent no earlier
/// row has as id, is a root.
pub proof fn ley_padre_tabla(d: Seq<DatosV>, i: int)
    requires
        0 <= i < d.len(),
    ensures
        padre_tabla(d, i) matches Some(k) ==> {
            &&& 0 <= k < i
            &&& d[i].parent != seq!['0']
            &&& d[k].id == d[i].parent
            &&& forall|m: int| k < m < i ==> (#[trigger] d[m]).id != d[i].parent
        },
        padre_tabla(d, i) is None ==> d[i].parent == seq!['0'] || forall|m: int|
            0 <= m < i ==> (#[trigger] d[m]).id != d[i].parent,
{
    lema_padre_en(d, i, i);
}

/// A game hangs from the first earlier game with its code and opening, and
/// is at the root when no earlier game has them.
pub proof fn ley_padre_central(v: Seq<PartidaV>, i: int)
    requires
        0 <= i < v.len(),
    ensures
        padre_central(v, i) matches Some(k) ==> {
            &&& 0 <= k < i
            &&& clave_partida(v[k]) == clave_partida(v[i])
            &&& forall|m: int| 0 <= m < k ==> clave_partida(#[trigger] v[m]) != clave_partida(v[i])
        },
        padre_central(v, i) is None ==> forall|m: int| 0 <= m < i ==> clave_partida(#[trigger] v[m]) != clave_partida(v[i]),
{
    lema_primero(v, i, i);
}

fn clave_de(p: &Partida) -> (r: String)
    ensures
        r@ == clave_partida(p@),
{
    let mut c = p.cabecera.sitio.clone();
    c.append(p.cabecera.blancas.as_str());
    c
}

fn busca_primero(partidas: &Vec<Partida>, i: usize) -> (r: Option<usize>)
    requires
        i < partidas@.len(),
    ensures
        match r {
            Some(x) => padre_central(vistas_partidas(partidas@), i as int) == Some(x as int),
            None => padre_central(vistas_partidas(partidas@), i as int) is None,
        },
{
    let ghost v = vistas_partidas(partidas@);
    let clave = clave_de(&partidas[i]);
    assert(clave@ == clave_partida(v[i as int]));
    let mut k: usize = 0;
    while k < i
        invariant
            k <= i,
            i < partidas@.len(),
            v == vistas_partidas(partidas@),
            clave@ == clave_partida(v[i as int]),
            primero_con_clave(v, i as int, k as int) is None,
        decreases i - k,
    {
        let ck = clave_de(&partidas[k]);
        assert(ck@ == clave_partida(v[k as int]));
        if ck == clave {
            assert(primero_con_clave(v, i as int, k + 1) == Some(k as int));
            proof {
                lema_primero(v, i as int, k + 1);
                lema_primero(v, i as int, i as int);
                lema_primero(v, i as int, k as int);
                if primero_con_clave(v, i as int, i as int) != Some(k as int) {
                    match primero_con_clave(v, i as int, i as int) {
                        Some(x) => {
                            if x < k {
                            } else if x > k {
                                assert(clave_partida(v[k as int]) != clave_partida(v[i as int]));
                            }
                        },
                        None => {
                            assert(clave_partida(v[k as int]) != clave_partida(v[i as int]));
                        },
                    }
                }
            }
            return Some(k);
        }
        k = k + 1;
    }
    None
}

impl ArbolECO {
    /// Where each game hangs in the tree of the games of a code: the index of
    /// the game it hangs from, or none for a game at the root.
    pub fn padres_central(partidas: &Vec<Partida>) -> (r: Vec<Option<usize>>)
        ensures
            r@.len() == partidas@.len(),
            forall|i: int| 0 <= i < partidas@.len() ==> vista_padres(r@)[i] == padre_central(vistas_partidas(partidas@), i),
    {
        let mut r: Vec<Option<usize>> = Vec::new();
        let mut i: usize = 0;
        while i < partidas.len()
            invariant
                i <= partidas.len(),
                r@.len() == i,
                forall|k: int| 0 <= k < i ==> vista_padres(r@)[k] == padre_central(vistas_partidas(partidas@), k),
            decreases partidas.len() - i,
        {
            let padre = busca_primero(partidas, i);
            let ghost rv = vista_padres(r@);
            r.push(padre);
            assert(vista_padres(r@) =~= rv.push(match padre {
                Some(x) => Some(x as int),
                None => None,
            }));
            i = i + 1;
        }
        r
    }

    /// Adds the rows of the tree of ECO codes.
    pub fn crea_lista_datos(lista: Vec<Datos>) -> (r: Vec<Datos>)
        ensures
            vista_datos(r@) == vista_datos(lista@) + filas_eco(),
    {
        let mut lista = lista;
        let ghost l0 = vista_datos(lista@);
        lista.push(Datos::init(String::from_str("ECO"), String::from_str("0"), String::from_str(" ")));
        lista.push(
            Datos::init(String::from_str("A00"), String::from_str("ECO"), String::from_str("Aperturas de flanco")),
        );
        lista.push(
            Datos::init(String::from_str("B00"), String::from_str("ECO"), String::from_str("Aperturas semiabiertas")),
        );
        lista.push(
            Datos::init(String::from_str("C00"), String::from_str("ECO"), String::from_str("Def. Francesa y abiertas")),
        );
        lista.push(
            Datos::init(String::from_str("D00"), String::from_str("ECO"), String::from_str("Cerradas y Grunfeld")),
        );
        lista.push(
            Datos::init(String::from_str("E00"), String::from_str("ECO"), String::from_str("Defensas Indias")),
        );
        assert(vista_datos(lista@) =~= l0 + filas_eco());
        lista
    }

    /// Where each row of the tree of ECO codes hangs: the index of its parent
    /// row, or none for a root.
    pub fn padres_tabla(data: &Vec<Datos>) -> (r: Vec<Option<usize>>)
        ensures
            r@.len() == data@.len(),
            forall|i: int| 0 <= i < data@.len() ==> vista_padres(r@)[i] == padre_tabla(vista_datos(data@), i),
    {
        let ghost d = vista_datos(data@);
        let mut r: Vec<Option<usize>> = Vec::new();
        let mut i: usize = 0;
        while i < data.len()
            invariant
                i <= data.len(),
                d == vista_datos(data@),
                r@.len() == i,
                forall|k: int| 0 <= k < i ==> vista_padres(r@)[k] == padre_tabla(d, k),
            decreases data.len() - i,
        {
            let item = &data[i];
            assert(item@ == d[i as int]);
            let raiz = {
                let p = crate::texto::caracteres(item.parent.as_str());
                let b = p.len() == 1 && p[0] == '0';
                assert(b == (item.parent@ == seq!['0'])) by {
                    if b {
                        assert(p@ =~= seq!['0']);
                    }
                }
                b
            };
            let padre: Option<usize> = if raiz {
                None
            } else {
                busca_padre(data, i)
            };
            let ghost rv = vista_padres(r@);
            r.push(padre);
            assert(vista_padres(r@) =~= rv.push(match padre {
                Some(x) => Some(x as int),
                None => None,
            }));
            i = i + 1;
        }
        r
    }
}

} // verus!
