use vstd::prelude::*;
use crate::texto::{caracteres, cadena, divide, trozos, vistas, busca, posicion, lema_trozos_no_vacio};

verus! {

/// The main window; its widgets stand in the application.
pub struct Indice {}

/// The main menu; its widgets stand in the application.
pub struct Menu {}

pub open spec fn barra() -> Seq<char> {
    seq!['|']
}

/// The label and the accelerator key of a menu item written `label|key`; an
/// item without `|` has no key.
pub open spec fn divide_submenu_spec(s: Seq<char>) -> (Seq<char>, Seq<char>) {
    if posicion(s, '|') is Some {
        (trozos(s, barra())[0], trozos(s, barra())[1])
    } else {
        (s, seq![])
    }
}

/// The accelerator of a key: `<Primary>` and the key; none for no key.
pub open spec fn acelerador_spec(tecla: Seq<char>) -> Option<Seq<char>> {
    if tecla.len() == 0 {
        None
    } else {
        Some("<Primary>"@ + tecla)
    }
}

proof fn lema_dos_trozos(s: Seq<char>)
    requires
        posicion(s, '|') is Some,
    ensures
        trozos(s, barra()).len() >= 2,
    decreases s.len(),
{
    crate::texto::lema_posicion(s, '|');
    if s.len() > 0 {
        if crate::texto::empieza_por(s, barra()) {
            lema_trozos_no_vacio(s.skip(1), barra());
        } else {
            assert(s[0] != '|') by {
                if s[0] == '|' {
                    assert(s.take(1) =~= barra());
                }
            }
            lema_dos_trozos(s.skip(1));
        }
    }
}

impl Indice {
    /// The entries of the main menu: `01-_Fichero` with the item `_Salir|S`.
    pub fn definicion_menu() -> (r: Vec<(String, Vec<String>)>)
        ensures
            r@.len() == 1,
            r@[0].0@ == "01-_Fichero"@,
            r@[0].1@.len() == 1,
            r@[0].1@[0]@ == "_Salir|S"@,
    {
        let mut items: Vec<String> = Vec::new();
        items.push(String::from_str("_Salir|S"));
        let mut r: Vec<(String, Vec<String>)> = Vec::new();
        r.push((String::from_str("01-_Fichero"), items));
        r
    }
}

impl Menu {
    /// The label and the accelerator key of a menu item.
    pub fn divide_submenu(submenu: &str) -> (r: (String, String))
        ensures
            (r.0@, r.1@) == divide_submenu_spec(submenu@),
    {
        let v = caracteres(submenu);
        match busca(&v, '|') {
            Some(_) => {
                let sep = vec!['|'];
                assert(sep@ =~= barra());
                let partes = divide(&v, &sep);
                proof {
                    lema_dos_trozos(submenu@);
                }
                assert(vistas(partes@)[0] == partes@[0]@);
                assert(vistas(partes@)[1] == partes@[1]@);
                (cadena(&partes[0]), cadena(&partes[1]))
            },
            None => (String::from_str(submenu), String::new()),
        }
    }

    /// The accelerator text of a key, if there is a key.
    pub fn texto_acelerador(tecla: &str) -> (r: Option<String>)
        ensures
            match r {
                Some(t) => acelerador_spec(tecla@) == Some(t@),
                None => acelerador_spec(tecla@) is None,
            },
    {
        let v = caracteres(tecla);
        if v.len() == 0 {
            None
        } else {
            let mut t = String::from_str("<Primary>");
            t.append(tecla);
            Some(t)
        }
    }

    /// The item quits the application.
    pub fn es_salir(etiqueta: &str) -> (b: bool)
        ensures
            b == (etiqueta@ == "_Salir"@),
    {
        let a = String::from_str(etiqueta);
        let b = String::from_str("_Salir");
        a == b
    }
}

} // verus!
