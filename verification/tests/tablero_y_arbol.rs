use chess_tree_eco::arbol_eco::{ArbolECO, Datos};
use chess_tree_eco::arbol_subeco::{Cabecera, Partida};
use chess_tree_eco::indice::{Indice, Menu};
use chess_tree_eco::parser::MoveT;
use chess_tree_eco::tablero::{
    alfa_notacion, crea_lista_piezas, esta_en_tablero, notacion_legible, num_notacion, procesa_notacion, texto_enlace,
    PiezaTexto, Tablero,
};

#[test]
fn nombres_de_casillas() {
    assert_eq!(alfa_notacion((3, 4)), "e4");
    assert_eq!(alfa_notacion((0, 0)), "a1");
    assert_eq!(alfa_notacion((7, 7)), "h8");
    assert_eq!(alfa_notacion((8, 0)), "None");
    assert!(esta_en_tablero((7, 7)));
    assert!(!esta_en_tablero((0, 8)));
}

#[test]
fn casillas_ida_y_vuelta() {
    for f in 0..8 {
        for c in 0..8 {
            assert_eq!(num_notacion(&alfa_notacion((f, c))), (f, c));
        }
    }
}

#[test]
fn piezas_de_la_posicion_inicial() {
    let dibujo = "rnbqkbnrpppppppp--------------------------------PPPPPPPPRNBQKBNR";
    let piezas: Vec<String> = dibujo.chars().map(|c| c.to_string()).collect();
    let t = procesa_notacion(piezas.clone(), false);
    assert_eq!(t.len(), 32);
    assert!(t.contains(&("e1".to_string(), "K".to_string())));
    assert!(t.contains(&("d8".to_string(), "q".to_string())));
    assert!(t.contains(&("a2".to_string(), "P".to_string())));
    for i in 0..t.len() {
        for j in (i + 1)..t.len() {
            assert_ne!(t[i].0, t[j].0);
        }
    }
    let g = procesa_notacion(piezas, true);
    assert!(g.contains(&("d1".to_string(), "k".to_string())));
    assert!(g.contains(&("e8".to_string(), "Q".to_string())));
}

#[test]
fn ficheros_de_las_piezas() {
    let l = crea_lista_piezas("./piezas/Merida96/".to_string());
    assert_eq!(l.len(), 12);
    assert_eq!(l[0], ("b".to_string(), "./piezas/Merida96/bb.png".to_string()));
    assert_eq!(l[6], ("B".to_string(), "./piezas/Merida96/wb.png".to_string()));
    assert_eq!(l[11], ("R".to_string(), "./piezas/Merida96/wr.png".to_string()));
}

fn jugada(san: &str, turno: &str, fen: &str) -> MoveT {
    MoveT::crea_jugada("".into(), san.into(), "".into(), "".into(), turno.into(), fen.into(), "".into(), "".into(), "0".into())
}

#[test]
fn texto_de_la_partida() {
    let partida = vec![vec![jugada("", "", "f0"), jugada("e4", "w", "f1"), jugada("e5", "b", "f2"), jugada("Nf3", "w", "f3")]];
    let t = Tablero::crea_texto_partida(&partida);
    let mut s = String::new();
    for p in &t {
        match p {
            PiezaTexto::Numero(n) => s.push_str(&format!("[{}]", n)),
            PiezaTexto::Enlace(m, f) => s.push_str(&format!("<{}|{}>", m, f)),
            PiezaTexto::Espacio => s.push('_'),
        }
    }
    assert_eq!(
        s,
        "<<span color=\"blue\"></span>|f0>_[1. ]<<span color=\"blue\">e4</span>|f1>_<<span color=\"blue\">e5</span>|f2>_[2. ]<<span color=\"blue\">Nf3</span>|f3>_"
    );
}

#[test]
fn arbol_de_codigos_eco() {
    let datos = ArbolECO::crea_lista_datos(Vec::new());
    assert_eq!(datos.len(), 6);
    assert_eq!(datos[0].id, "ECO");
    assert_eq!(datos[3].data, "Def. Francesa y abiertas");
    assert_eq!(ArbolECO::padres_tabla(&datos), vec![None, Some(0), Some(0), Some(0), Some(0), Some(0)]);
    let mut otros = Vec::new();
    otros.push(Datos::init("x".into(), "ECO".into(), "".into()));
    otros.push(Datos::init("ECO".into(), "0".into(), "".into()));
    otros.push(Datos::init("y".into(), "ECO".into(), "".into()));
    otros.push(Datos::init("z".into(), "ECO".into(), "".into()));
    assert_eq!(ArbolECO::padres_tabla(&otros), vec![None, None, Some(1), Some(1)]);
}

fn partida(sitio: &str, blancas: &str) -> Partida {
    Partida {
        cabecera: Cabecera { sitio: sitio.into(), blancas: blancas.into(), negras: "".into() },
        jugadas: "".into(),
    }
}

#[test]
fn arbol_de_partidas_en_dos_niveles() {
    let ps = vec![partida("A00", "Polaca"), partida("A00", "Polaca"), partida("A01", "Larsen"), partida("A00", "Polaca"), partida("A0", "0Polaca")];
    assert_eq!(ArbolECO::padres_central(&ps), vec![None, Some(0), None, Some(0), Some(0)]);
}

#[test]
fn menu_principal() {
    let d = Indice::definicion_menu();
    assert_eq!(d[0].0, "01-_Fichero");
    assert_eq!(Menu::divide_submenu(&d[0].1[0]), ("_Salir".to_string(), "S".to_string()));
    assert_eq!(Menu::divide_submenu("_Abrir"), ("_Abrir".to_string(), "".to_string()));
    assert_eq!(Menu::texto_acelerador("S"), Some("<Primary>S".to_string()));
    assert_eq!(Menu::texto_acelerador(""), None);
    assert!(Menu::es_salir("_Salir"));
    assert!(!Menu::es_salir("Salir"));
}

#[test]
fn notaciones_legibles() {
    assert!(notacion_legible("e4"));
    assert!(notacion_legible("h9"));
    assert!(!notacion_legible("i4"));
    assert!(!notacion_legible("e0"));
    assert!(!notacion_legible("e"));
}

#[test]
fn marca_de_un_enlace() {
    assert_eq!(texto_enlace("Nf3"), "<span color=\"blue\">Nf3</span>");
}

fn gira(casilla: &str) -> String {
    let b = casilla.as_bytes();
    let col = (b'a' + b'h' - b[0]) as char;
    let fila = (b'1' + b'8' - b[1]) as char;
    format!("{}{}", col, fila)
}

#[test]
fn tablero_girado_es_el_recto_al_reves() {
    let dibujo = "r---k--rpp-n-ppp--p-----------B----P-----N------PP---PPPR---K--R";
    let piezas: Vec<String> = dibujo.chars().map(|c| c.to_string()).collect();
    let recto = procesa_notacion(piezas.clone(), false);
    let girado = procesa_notacion(piezas, true);
    let esperado: Vec<(String, String)> = recto.iter().rev().map(|(c, p)| (gira(c), p.clone())).collect();
    assert_eq!(girado, esperado);
    assert_eq!(recto[0], ("a8".to_string(), "r".to_string()));
    assert_eq!(girado[0], ("a8".to_string(), "R".to_string()));
}
