use chess_tree_eco::arbol_subeco::{
    arregla_cabecera, cabecera_legible, obtiene_partidas, partidas_de, selecciona_volumen, volumen_legible,
};

const VOLUMEN_A: &str = "[Site \"A00\"]\n[White \"Apertura Polaca\"]\n[Black \"Variante 1\"]\n\n1. b4 e5 *\n\n[Site \"A00\"]\n[White \"Apertura Polaca\"]\n\n1. b4 d5 *\n\n";

#[test]
fn cabecera_de_tres_lineas() {
    let c = arregla_cabecera("[Site \"A01\"]\n[White \"Larsen\"]\n[Black \"Moderna\"]");
    assert_eq!(c.sitio, "A01");
    assert_eq!(c.blancas, "Larsen");
    assert_eq!(c.negras, "Moderna");
}

#[test]
fn cabecera_de_dos_lineas_tiene_negras_en_blanco() {
    let c = arregla_cabecera("[Site \"A01\"]\n[White \"Larsen\"]");
    assert_eq!(c.sitio, "A01");
    assert_eq!(c.blancas, "Larsen");
    assert_eq!(c.negras, " ");
}

#[test]
fn volumenes_de_los_codigos() {
    assert_eq!(selecciona_volumen("A00"), Some(0));
    assert_eq!(selecciona_volumen("E00"), Some(4));
    assert_eq!(selecciona_volumen("F00"), None);
    assert_eq!(selecciona_volumen("A01"), None);
    assert_eq!(selecciona_volumen("ECO"), None);
}

#[test]
fn partidas_de_un_volumen() {
    let ps = partidas_de(VOLUMEN_A);
    assert_eq!(ps.len(), 2);
    assert_eq!(ps[0].cabecera.sitio, "A00");
    assert_eq!(ps[0].cabecera.blancas, "Apertura Polaca");
    assert_eq!(ps[0].cabecera.negras, "Variante 1");
    assert_eq!(ps[0].jugadas, "1. b4 e5 *");
    assert_eq!(ps[1].cabecera.negras, " ");
    assert_eq!(ps[1].jugadas, "1. b4 d5 *");
}

#[test]
fn cabecera_sin_jugadas_se_descarta() {
    let ps = partidas_de("[Site \"A00\"]\n[White \"x\"]\n\n[Site \"B00\"]\n[White \"y\"]\n\n1. e4 *");
    assert_eq!(ps.len(), 1);
    assert_eq!(ps[0].cabecera.sitio, "A00");
    assert_eq!(ps[0].jugadas, "1. e4 *");
}

#[test]
fn obtiene_partidas_por_codigo() {
    let volumenes: Vec<String> = vec![VOLUMEN_A.to_string(), String::new(), String::new(), String::new(), String::new()];
    assert_eq!(obtiene_partidas("A00".to_string(), &volumenes).len(), 2);
    assert_eq!(obtiene_partidas("B00".to_string(), &volumenes).len(), 0);
    assert_eq!(obtiene_partidas("ECO".to_string(), &volumenes).len(), 0);
}

#[test]
fn cabeceras_legibles() {
    assert!(cabecera_legible("[Site \"A01\"]\n[White \"Larsen\"]"));
    assert!(!cabecera_legible("[Site \"A01\"]"));
    assert!(!cabecera_legible("[Site \"A01\"]\n[White Larsen]"));
    assert!(volumen_legible(VOLUMEN_A));
    assert!(!volumen_legible("[Site \"A00\"]\n\n1. e4 *"));
    assert!(volumen_legible(""));
}
