use chess_tree_eco::parser::{
    ahorma_jugadas, ahorma_partida, campos_cabecera, compone_cabecera, corta_ficha, prepara_partida, valor_sin_comillas,
    MoveT, PartiT,
};
use chess_tree_eco::validacion::{procesa_jugadas, PeticionMotor, RespuestaJugada, RespuestaMotor, Validacion};

const FEN: &str = "rnbqkbnr/pppppppp/8/8/8/8/PPPPPPPP/RNBQKBNR w KQkq - 0 1";

/// A stand-in for the chess engine: it accepts every FEN and every move but
/// the ones listed, and numbers the positions it reaches.
struct MotorDePrueba {
    rechaza: Vec<String>,
    fen_valida: bool,
    jugadas: usize,
}

impl MotorDePrueba {
    fn responde(&mut self, q: &PeticionMotor) -> RespuestaMotor {
        match q {
            PeticionMotor::FijaFen(_) => RespuestaMotor::FenValida(self.fen_valida),
            PeticionMotor::Mueve(san) => {
                if self.rechaza.contains(san) {
                    RespuestaMotor::Jugada(None)
                } else {
                    self.jugadas += 1;
                    let turno = if self.jugadas % 2 == 1 { "w" } else { "b" };
                    RespuestaMotor::Jugada(Some(RespuestaJugada {
                        san: san.clone(),
                        uci: format!("uci-{}", san),
                        turno: turno.to_string(),
                        fen: format!("pos{} w - - 0 1", self.jugadas),
                    }))
                }
            }
            _ => RespuestaMotor::Nada,
        }
    }
}

fn valida(mut v: Validacion, motor: &mut MotorDePrueba) -> Vec<Vec<MoveT>> {
    while !v.terminada() {
        assert!(v.lectura_posible());
        let q = v.peticion();
        let r = motor.responde(&q);
        assert!(v.admite(&r));
        v = v.avanza(r);
    }
    v.resultado().arr_partida
}

fn resumen(m: &MoveT) -> (String, String, String, String, String, String, Vec<usize>, String) {
    (
        m.idx_jug.clone(),
        m.san.clone(),
        m.uci.clone(),
        m.num_jug.clone(),
        m.turno.clone(),
        m.fen.clone(),
        m.sub_var.clone(),
        m.profundidad.clone(),
    )
}

fn e(i: &str, s: &str, u: &str, n: &str, t: &str, f: &str, sv: Vec<usize>, p: &str) -> (String, String, String, String, String, String, Vec<usize>, String) {
    (i.into(), s.into(), u.into(), n.into(), t.into(), f.into(), sv, p.into())
}

#[test]
fn crea_jugada_guarda_sus_campos() {
    let m = MoveT::crea_jugada(
        "Var0Mv1".into(),
        "e4".into(),
        "e2e4".into(),
        "1".into(),
        "w".into(),
        "fen".into(),
        "$1".into(),
        "{bien}".into(),
        "0".into(),
    );
    assert_eq!(resumen(&m), e("Var0Mv1", "e4", "e2e4", "1", "w", "fen", vec![], "0"));
    assert_eq!(m.nag, "$1");
    assert_eq!(m.comen, "{bien}");
}

#[test]
fn partida_vacia_y_sus_cambios() {
    let mut p = PartiT::init();
    assert!(p.cabecera.is_empty() && p.movims.is_empty() && p.arr_partida.is_empty());
    p.cambia_pgn("1. e4".into());
    p.cambia_cabecera("Evento".into());
    assert_eq!(p.pgn, "1. e4");
    assert_eq!(p.cabecera, vec!["Evento".to_string()]);
}

#[test]
fn cabecera_con_valores_por_defecto() {
    let lineas = vec![
        "[Event \"Torneo 'B'\"]".to_string(),
        "[White \"Tal\"]".to_string(),
        "".to_string(),
        "1. e4 *".to_string(),
    ];
    let (campos, cuerpo) = campos_cabecera(&lineas).unwrap();
    assert_eq!(campos, vec![("Event".to_string(), "Torneo 'B'".to_string()), ("White".to_string(), "Tal".to_string())]);
    assert_eq!(cuerpo.iter().collect::<String>(), "  1. e4 *");
    let cab = compone_cabecera(&campos);
    assert_eq!(
        cab,
        vec!["Torneo  B ", "?", "????-??-??", "?", "Tal", "?", "*", "???", "0", "0", FEN]
            .into_iter()
            .map(|s| s.to_string())
            .collect::<Vec<_>>()
    );
}

#[test]
fn linea_de_cabecera_que_no_casa() {
    let lineas = vec!["[sin cierre".to_string()];
    assert!(campos_cabecera(&lineas).is_none());
    assert!(prepara_partida(&"[abc".to_string(), &FEN.to_string()).is_none());
}

#[test]
fn fichas_de_la_partida() {
    let p = prepara_partida(&"1. e4 e5 (1... c5 {Siciliana}) 2. Nf3 $1\n*".to_string(), &FEN.to_string()).unwrap();
    assert_eq!(p.movims, vec!["e4", "e5", "(", "c5", "{Siciliana}", ")", "Nf3", "$1", "*"]);
    assert_eq!(p.cabecera.len(), 11);
    assert_eq!(p.cabecera[10], FEN);
    assert_eq!(p.cabecera[6], "*");
}

#[test]
fn fichas_sin_espacios_sueltos() {
    let mut p = PartiT::init();
    p.cambia_pgn("e4 \\ e5".into());
    ahorma_jugadas(&mut p);
    assert!(p.movims.iter().all(|t| t != " "));
}

#[test]
fn valida_linea_principal_y_variante() {
    let v = procesa_jugadas("1. e4 e5 (1... c5) 2. Nf3 *".to_string(), FEN.to_string()).unwrap();
    let mut motor = MotorDePrueba { rechaza: vec!["*".to_string()], fen_valida: true, jugadas: 0 };
    let lineas = valida(v, &mut motor);
    assert_eq!(lineas.len(), 2);
    let principal: Vec<_> = lineas[0].iter().map(resumen).collect();
    assert_eq!(
        principal,
        vec![
            e("Var0Mv0", "", "", "0", "", FEN, vec![], "0"),
            e("Var0Mv1", "e4", "uci-e4", "1", "w", "pos1 w - - 0 1", vec![], "0"),
            e("Var0Mv2", "e5", "uci-e5", "2", "b", "pos2 w - - 0 1", vec![1], "0"),
            e("Var0Mv3", "Nf3", "uci-Nf3", "3", "w", "pos3 w - - 0 1", vec![], "0"),
            e("Var0Mv4", "*", "*", "4", "", "", vec![], "0"),
        ]
    );
    let variante: Vec<_> = lineas[1].iter().map(resumen).collect();
    assert_eq!(
        variante,
        vec![
            e("Var1Mv2", "(", "(", "2", "b", "pos1 w - - 0 1", vec![], "1"),
            e("Var1Mv3", "c5", "uci-c5", "3", "w", "pos4 w - - 0 1", vec![], "1"),
            e("Var1Mv4", ")", ")", "4", "", "", vec![], "1"),
        ]
    );
}

#[test]
fn comentario_y_nag_de_la_linea_principal() {
    let v = procesa_jugadas("1. e4 {Bien} $1 e5".to_string(), FEN.to_string()).unwrap();
    let mut motor = MotorDePrueba { rechaza: vec![], fen_valida: true, jugadas: 0 };
    let lineas = valida(v, &mut motor);
    assert_eq!(lineas.len(), 1);
    assert_eq!(lineas[0][1].comen, "{Bien}");
    assert_eq!(lineas[0][1].nag, "$1");
    assert_eq!(lineas[0][2].san, "e5");
}

#[test]
fn subvariante_pasa_a_linea_propia() {
    let v = procesa_jugadas("1. e4 e5 2. Nf3 (2. f4 d5 (2... exf4) 3. exd5) 2... Nc6".to_string(), FEN.to_string()).unwrap();
    let mut motor = MotorDePrueba { rechaza: vec![], fen_valida: true, jugadas: 0 };
    let lineas = valida(v, &mut motor);
    assert_eq!(lineas.len(), 3);
    let sans: Vec<Vec<String>> = lineas.iter().map(|l| l.iter().map(|m| m.san.clone()).collect()).collect();
    assert_eq!(sans[0], vec!["", "e4", "e5", "Nf3", "Nc6"]);
    assert_eq!(sans[1], vec!["(", "f4", "d5", "exd5", ")"]);
    assert_eq!(sans[2], vec!["(", "exf4", ")"]);
    assert_eq!(lineas[0][3].sub_var, vec![1]);
    assert_eq!(lineas[1][2].sub_var, vec![2]);
    assert_eq!(lineas[2][0].profundidad, "2");
    assert_eq!(lineas[2][0].idx_jug, "Var2Mv4");
}

#[test]
fn fen_rechazada_deja_solo_el_resultado() {
    let v = procesa_jugadas("1. e4 e5 *".to_string(), FEN.to_string()).unwrap();
    let mut motor = MotorDePrueba { rechaza: vec![], fen_valida: false, jugadas: 0 };
    let lineas = valida(v, &mut motor);
    assert_eq!(lineas.len(), 1);
    let l: Vec<_> = lineas[0].iter().map(resumen).collect();
    assert_eq!(
        l,
        vec![e("Var0Mv0", "", "", "0", "", FEN, vec![], "0"), e("Var0Mv1", "*", "*", "1", "", "", vec![], "0")]
    );
}

#[test]
fn jugada_rechazada_en_variante_deja_solo_el_resultado() {
    let v = procesa_jugadas("1. e4 (1. Zz9) e5 *".to_string(), FEN.to_string()).unwrap();
    let mut motor = MotorDePrueba { rechaza: vec!["Zz9".to_string(), "*".to_string()], fen_valida: true, jugadas: 0 };
    let lineas = valida(v, &mut motor);
    assert_eq!(lineas.len(), 1);
    assert_eq!(lineas[0].len(), 2);
    assert_eq!(lineas[0][1].san, "*");
}

#[test]
fn variante_al_principio_no_se_admite() {
    let v = procesa_jugadas("(1. d4) 1. e4".to_string(), FEN.to_string()).unwrap();
    let mut motor = MotorDePrueba { rechaza: vec![], fen_valida: true, jugadas: 0 };
    let q = v.peticion();
    let r = motor.responde(&q);
    assert!(v.admite(&r));
    let v = v.avanza(r);
    let q = v.peticion();
    let r = motor.responde(&q);
    assert!(!v.admite(&r));
}

#[test]
fn subvariante_tras_una_sola_jugada_no_se_admite() {
    let mut v = procesa_jugadas("1. e4 (1. d4 (1. c4)) e5".to_string(), FEN.to_string()).unwrap();
    let mut motor = MotorDePrueba { rechaza: vec![], fen_valida: true, jugadas: 0 };
    loop {
        assert!(!v.terminada());
        let q = v.peticion();
        let r = motor.responde(&q);
        if !v.admite(&r) {
            break;
        }
        v = v.avanza(r);
    }
    assert_eq!(v.partida().arr_partida.len(), 2);
}

fn texto(v: &Vec<char>) -> String {
    v.iter().collect()
}

#[test]
fn corta_la_primera_ficha() {
    let (f, r) = corta_ficha(&"e4 e5\\x".chars().collect()).unwrap();
    assert_eq!((texto(&f), texto(&r)), ("e4".to_string(), " e5 x".to_string()));
    let (f, r) = corta_ficha(&"{a b} c".chars().collect()).unwrap();
    assert_eq!((texto(&f), texto(&r)), ("{a b}".to_string(), " c".to_string()));
    assert!(corta_ficha(&"{sin cierre".chars().collect()).is_none());
    assert!(corta_ficha(&"Nf3".chars().collect()).is_none());
}

#[test]
fn valores_sin_comillas() {
    assert_eq!(valor_sin_comillas("\"Tal\""), "Tal");
    assert_eq!(valor_sin_comillas("x"), "");
    assert_eq!(valor_sin_comillas(""), "");
}

#[test]
fn ahorma_partida_lee_cabecera_y_fichas() {
    assert!(campos_cabecera(&vec!["[roto".to_string()]).is_none());
    assert!(campos_cabecera(&vec!["[]".to_string()]).is_none());
    let mut p = PartiT::init();
    let q = ahorma_partida(&mut p, &vec!["[Result \"1-0\"]".to_string(), "1. e4 1-0".to_string()]);
    assert_eq!(p.cabecera[6], "1-0");
    assert_eq!(p.pgn, "1. e4 1-0");
    assert!(p.movims.is_empty());
    assert_eq!(q.movims, vec!["e4", "1-0"]);
}

#[test]
fn lineas_tras_leer_las_variantes() {
    let v = procesa_jugadas(
        "1. e4 e5 (1... c5 2. Nf3 (2. c3 d5 (2... Nf6)) d6) (1... e6) 2. Nf3 *".to_string(),
        FEN.to_string(),
    )
    .unwrap();
    let mut motor = MotorDePrueba { rechaza: vec!["*".to_string()], fen_valida: true, jugadas: 0 };
    let lineas = valida(v, &mut motor);
    // the main reading leaves three lines; the groups after the main line
    // hold two opening parentheses after their first entry: one more line
    // for each
    assert_eq!(lineas.len(), 3 + 2);
    let sans: Vec<Vec<String>> = lineas.iter().map(|l| l.iter().map(|m| m.san.clone()).collect()).collect();
    assert_eq!(sans[0], vec!["", "e4", "e5", "Nf3", "*"]);
    for l in &sans[1..] {
        assert_eq!(l[0], "(");
        assert_eq!(l[l.len() - 1], ")");
        assert!(l[1..l.len() - 1].iter().all(|s| s != "(" && s != ")"));
    }
    assert_eq!(sans[1], vec!["(", "c5", "Nf3", "d6", ")"]);
    assert_eq!(sans[2], vec!["(", "e6", ")"]);
    assert_eq!(sans[3], vec!["(", "c3", "d5", ")"]);
    assert_eq!(sans[4], vec!["(", "Nf6", ")"]);
    assert_eq!(lineas[1][2].sub_var, vec![3]);
    assert_eq!(lineas[3][2].sub_var, vec![4]);
    assert_eq!(lineas[4][0].profundidad, "3");
    // every line after the main line hangs from exactly one entry of an
    // earlier line, one level deeper, and its entries share that depth
    for k in 1..lineas.len() {
        let mut padres = vec![];
        for (p, l) in lineas.iter().enumerate() {
            for m in l {
                for &s in &m.sub_var {
                    if s == k {
                        padres.push(p);
                    }
                }
            }
        }
        assert_eq!(padres.len(), 1);
        let p = padres[0];
        assert!(p < k);
        let d: i16 = lineas[k][0].profundidad.parse().unwrap();
        let dp: i16 = lineas[p][0].profundidad.parse().unwrap();
        assert_eq!(d, dp + 1);
        assert!(lineas[k].iter().all(|m| m.profundidad == lineas[k][0].profundidad));
    }
}

#[test]
fn procesa_jugadas_lee_como_ahorma_partida() {
    let jugadas = "1. e4 e5 (1... c5\n2. Nf3) 2. Nf3 *";
    let v = procesa_jugadas(jugadas.to_string(), FEN.to_string()).unwrap();
    let mut motor = MotorDePrueba { rechaza: vec!["*".to_string()], fen_valida: true, jugadas: 0 };
    let por_procesa = valida(v, &mut motor);
    let lineas = vec![format!("[FEN \"{}\"]", FEN), jugadas.replace("\n", " ")];
    let mut p = PartiT::init();
    let q = ahorma_partida(&mut p, &lineas);
    let mut motor2 = MotorDePrueba { rechaza: vec!["*".to_string()], fen_valida: true, jugadas: 0 };
    let por_ahorma = valida(Validacion::nueva(q), &mut motor2);
    let resumir = |l: &Vec<Vec<MoveT>>| -> Vec<Vec<_>> { l.iter().map(|x| x.iter().map(resumen).collect()).collect() };
    assert_eq!(resumir(&por_procesa), resumir(&por_ahorma));
    assert_eq!(por_procesa.len(), 2);
}

#[test]
fn cierre_pegado_queda_al_final_de_su_linea() {
    let v = procesa_jugadas("1. e4 (1. d4)2. Nf3 *".to_string(), FEN.to_string()).unwrap();
    let mut motor = MotorDePrueba { rechaza: vec!["*".to_string()], fen_valida: true, jugadas: 0 };
    let lineas = valida(v, &mut motor);
    assert_eq!(lineas.len(), 2);
    let sans: Vec<Vec<String>> = lineas.iter().map(|l| l.iter().map(|m| m.san.clone()).collect()).collect();
    assert_eq!(sans[0], vec!["", "e4", "Nf3", "*"]);
    // the glued token closes the variation, stays its last entry, and is
    // played on the engine as a move
    assert_eq!(sans[1], vec!["(", "d4", ")2."]);
    assert_eq!(lineas[1][2].uci, "uci-)2.");
    assert_eq!(lineas[0][1].sub_var, vec![1]);
    assert!(lineas[1].iter().all(|m| m.profundidad == "1"));
}

#[test]
fn cierre_pegado_rechazado_por_el_motor() {
    let v = procesa_jugadas("1. e4 (1. d4)2. Nf3 *".to_string(), FEN.to_string()).unwrap();
    let mut motor = MotorDePrueba { rechaza: vec!["*".to_string(), ")2.".to_string()], fen_valida: true, jugadas: 0 };
    let lineas = valida(v, &mut motor);
    assert_eq!(lineas.len(), 1);
    assert_eq!(lineas[0].len(), 2);
}
