use chess_tree_eco::numeros::{lee_i16, texto_entero, texto_natural};
use chess_tree_eco::texto::{busca, cadena, caracteres, divide, palabras, recorta, reemplaza};

fn v(s: &str) -> Vec<char> {
    s.chars().collect()
}

fn textos(t: &Vec<Vec<char>>) -> Vec<String> {
    t.iter().map(|x| x.iter().collect()).collect()
}

#[test]
fn divide_por_linea_en_blanco() {
    let r = divide(&v("a\n\nb\n\n\nc"), &v("\n\n"));
    assert_eq!(textos(&r), vec!["a", "b", "\nc"]);
}

#[test]
fn divide_sin_separador() {
    let r = divide(&v("abc"), &v("|"));
    assert_eq!(textos(&r), vec!["abc"]);
    let r = divide(&v(""), &v("|"));
    assert_eq!(textos(&r), vec![""]);
    let r = divide(&v("|"), &v("|"));
    assert_eq!(textos(&r), vec!["", ""]);
}

#[test]
fn palabras_como_split_whitespace() {
    let s = "  rnbqkbnr/pppppppp/8/8/8/8/PPPPPPPP/RNBQKBNR w\tKQkq - 0 1 ";
    let r = palabras(&v(s));
    let esperado: Vec<String> = s.split_whitespace().map(|x| x.to_string()).collect();
    assert_eq!(textos(&r), esperado);
    assert_eq!(textos(&palabras(&v(""))), Vec::<String>::new());
}

#[test]
fn recorta_como_trim() {
    for s in ["  a b  ", "\u{3000}x\u{85}", "   ", "", "x"] {
        let r: String = recorta(&v(s)).iter().collect();
        assert_eq!(r, s.trim());
    }
}

#[test]
fn reemplaza_como_replace() {
    let r: String = reemplaza(&v("(a)(b)"), '(', &v("( ")).iter().collect();
    assert_eq!(r, "(a)(b)".replace("(", "( "));
}

#[test]
fn busca_primera_posicion() {
    assert_eq!(busca(&v("ab}c}"), '}'), Some(2));
    assert_eq!(busca(&v("abc"), '}'), None);
}

#[test]
fn cadena_y_caracteres() {
    let s = "Grünfeld";
    assert_eq!(cadena(&caracteres(s)), s);
}

#[test]
fn numeros_en_texto() {
    let t: String = texto_natural(0).iter().collect();
    assert_eq!(t, "0");
    let t: String = texto_natural(1204).iter().collect();
    assert_eq!(t, "1204");
    let t: String = texto_entero(-37).iter().collect();
    assert_eq!(t, "-37");
}

#[test]
fn lee_i16_como_parse() {
    for s in ["0", "12", "+5", "-32768", "32767", "32768", "-32769", "+", "-", "", "1a", " 1", "007"] {
        assert_eq!(lee_i16(&v(s)), s.parse::<i16>().ok(), "{}", s);
    }
}

#[test]
fn lee_i16_ida_y_vuelta() {
    for x in [i16::MIN, -1, 0, 1, 9, 10, 99, 100, i16::MAX] {
        let t = texto_entero(x as i64);
        assert_eq!(lee_i16(&t), Some(x));
    }
}
