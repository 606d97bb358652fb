use vstd::prelude::*;
use crate::numeros::{decimal, decimal_con_signo, lee_i16_spec, texto_natural, texto_entero, lee_i16};
use crate::parser::{
    JugadaV, MoveT, PartiT, PartiTV, jugada_nueva, vista_linea, vista_lineas, prepara_partida,
    cabeceras_casan, lineas_partida, con_tokens, con_cabecera, partida_vacia,
};
use crate::texto::{empieza_con, palabras_spec, palabras, caracteres, cadena, vistas};

verus! {

// ---------------------------------------------------------------------------
// The chess engine's side
// ---------------------------------------------------------------------------

/// What the chess engine answered to a move it accepted: the move in SAN and
/// in UCI, the side that played it, and the FEN of the position after it.
pub struct RespuestaJugada {
    pub san: String,
    pub uci: String,
    pub turno: String,
    pub fen: String,
}

pub struct RespuestaJugadaV {
    pub san: Seq<char>,
    pub uci: Seq<char>,
    pub turno: Seq<char>,
    pub fen: Seq<char>,
}

impl View for RespuestaJugada {
    type V = RespuestaJugadaV;

    open spec fn view(&self) -> RespuestaJugadaV {
        RespuestaJugadaV { san: self.san@, uci: self.uci@, turno: self.turno@, fen: self.fen@ }
    }
}

/// What the validation asks of the chess engine next.
pub enum PeticionMotor {
    /// Start a new board and set it to this FEN; answer `FenValida`.
    FijaFen(String),
    /// Play this SAN move on the board; answer `Jugada`, with nothing when
    /// the engine refuses the move.
    Mueve(String),
    /// Nothing; answer `Nada`.
    Ninguna,
    /// The validation is over.
    Terminada,
}

pub enum PeticionV {
    FijaFen(Seq<char>),
    Mueve(Seq<char>),
    Ninguna,
    Terminada,
}

impl View for PeticionMotor {
    type V = PeticionV;

    open spec fn view(&self) -> PeticionV {
        match self {
            PeticionMotor::FijaFen(f) => PeticionV::FijaFen(f@),
            PeticionMotor::Mueve(s) => PeticionV::Mueve(s@),
            PeticionMotor::Ninguna => PeticionV::Ninguna,
            PeticionMotor::Terminada => PeticionV::Terminada,
        }
    }
}

/// The engine's answer to a request.
pub enum RespuestaMotor {
    Nada,
    FenValida(bool),
    Jugada(Option<RespuestaJugada>),
}

pub enum RespuestaV {
    Nada,
    FenValida(bool),
    Jugada(Option<RespuestaJugadaV>),
}

impl View for RespuestaMotor {
    type V = RespuestaV;

    open spec fn view(&self) -> RespuestaV {
        match self {
            RespuestaMotor::Nada => RespuestaV::Nada,
            RespuestaMotor::FenValida(b) => RespuestaV::FenValida(*b),
            RespuestaMotor::Jugada(None) => RespuestaV::Jugada(None),
            RespuestaMotor::Jugada(Some(j)) => RespuestaV::Jugada(Some(j@)),
        }
    }
}

// ---------------------------------------------------------------------------
// The state of the validation
// ---------------------------------------------------------------------------

/// The state of the reading of the main line (line `nivel`).
pub struct EstadoPrincipal {
    pub nivel: usize,
    pub fen: String,
    pub num_parentesis: i16,
    pub arr_fen: Vec<String>,
    pub num_jugada: i16,
    pub arr_var: Vec<MoveT>,
    pub index: usize,
    pub parada: bool,
}

/// The state of the reading of the variations.
pub struct EstadoVariantes {
    pub idx_par: usize,
    pub long_parti: usize,
    pub en_linea: bool,
    pub parentesis: i16,
    pub arr_var: Vec<MoveT>,
    pub arr_fen: Vec<String>,
    pub num_jugada: i16,
    pub profundidad: i16,
    pub pos_ini: usize,
    pub idx_var: usize,
    pub long_var: usize,
}

pub enum Fase {
    FenPrincipal(usize),
    Principal(EstadoPrincipal),
    Variantes(EstadoVariantes),
    Hecha,
}

/// A game being checked move by move against the chess engine.
pub struct Validacion {
    pub partida: PartiT,
    pub fase: Fase,
}

pub struct PrincipalV {
    pub nivel: nat,
    pub fen: Seq<char>,
    pub num_parentesis: int,
    pub arr_fen: Seq<Seq<char>>,
    pub num_jugada: int,
    pub arr_var: Seq<JugadaV>,
    pub index: nat,
    pub parada: bool,
}

pub struct VariantesV {
    pub idx_par: nat,
    pub long_parti: nat,
    pub en_linea: bool,
    pub parentesis: int,
    pub arr_var: Seq<JugadaV>,
    pub arr_fen: Seq<Seq<char>>,
    pub num_jugada: int,
    pub profundidad: int,
    pub pos_ini: nat,
    pub idx_var: nat,
    pub long_var: nat,
}

pub enum FaseV {
    FenPrincipal(nat),
    Principal(PrincipalV),
    Variantes(VariantesV),
    Hecha,
}

pub struct ValidacionV {
    pub partida: PartiTV,
    pub fase: FaseV,
}

pub open spec fn vista_cadenas_fen(v: Seq<String>) -> Seq<Seq<char>> {
    v.map_values(|s: String| s@)
}

impl View for EstadoPrincipal {
    type V = PrincipalV;

    open spec fn view(&self) -> PrincipalV {
        PrincipalV {
            nivel: self.nivel as nat,
            fen: self.fen@,
            num_parentesis: self.num_parentesis as int,
            arr_fen: vista_cadenas_fen(self.arr_fen@),
            num_jugada: self.num_jugada as int,
            arr_var: vista_linea(self.arr_var@),
            index: self.index as nat,
            parada: self.parada,
        }
    }
}

impl View for EstadoVariantes {
    type V = VariantesV;

    open spec fn view(&self) -> VariantesV {
        VariantesV {
            idx_par: self.idx_par as nat,
            long_parti: self.long_parti as nat,
            en_linea: self.en_linea,
            parentesis: self.parentesis as int,
            arr_var: vista_linea(self.arr_var@),
            arr_fen: vista_cadenas_fen(self.arr_fen@),
            num_jugada: self.num_jugada as int,
            profundidad: self.profundidad as int,
            pos_ini: self.pos_ini as nat,
            idx_var: self.idx_var as nat,
            long_var: self.long_var as nat,
        }
    }
}

impl View for Fase {
    type V = FaseV;

    open spec fn view(&self) -> FaseV {
        match self {
            Fase::FenPrincipal(n) => FaseV::FenPrincipal(*n as nat),
            Fase::Principal(e) => FaseV::Principal(e@),
            Fase::Variantes(e) => FaseV::Variantes(e@),
            Fase::Hecha => FaseV::Hecha,
        }
    }
}

impl View for Validacion {
    type V = ValidacionV;

    open spec fn view(&self) -> ValidacionV {
        ValidacionV { partida: self.partida@, fase: self.fase@ }
    }
}

// ---------------------------------------------------------------------------
// Specification of the validation
// ---------------------------------------------------------------------------

/// The index text of an entry: `Var{a}Mv{b}`.
pub open spec fn indice_spec(a: Seq<char>, b: Seq<char>) -> Seq<char> {
    seq!['V', 'a', 'r'] + a + seq!['M', 'v'] + b
}

pub open spec fn dec_u(n: nat) -> Seq<char> {
    decimal(n)
}

pub open spec fn dec_i(n: int) -> Seq<char> {
    decimal_con_signo(n)
}

/// The side that moved, as the main line writes it on the entries of its
/// variations: the opposite of the side to move in the FEN it started from.
pub open spec fn turno_de_fen(fen: Seq<char>) -> Seq<char> {
    if palabras_spec(fen)[1] == seq!['w'] {
        seq!['b']
    } else {
        seq!['w']
    }
}

pub open spec fn cambia_jugada(a: Seq<Seq<JugadaV>>, i: int, j: int, m: JugadaV) -> Seq<Seq<JugadaV>> {
    a.update(i, a[i].update(j, m))
}

pub open spec fn fen_inicial() -> Seq<char> {
    "rnbqkbnr/pppppppp/8/8/8/8/PPPPPPPP/RNBQKBNR w KQkq - 0 1"@
}

/// What a game becomes when its moves do not validate: a main line with the
/// starting position and its result only (header field 6).
pub open spec fn partida_fallida(p: PartiTV) -> PartiTV {
    let primero = jugada_nueva(
        "Var0Mv0"@,
        seq![],
        seq![],
        "0"@,
        seq![],
        fen_inicial(),
        seq![],
        seq![],
        "0"@,
    );
    let ultimo = jugada_nueva(
        "Var0Mv1"@,
        p.cabecera[6],
        p.cabecera[6],
        "1"@,
        seq![],
        seq![],
        seq![],
        seq![],
        "0"@,
    );
    PartiTV { arr_partida: seq![seq![primero, ultimo]], ..p }
}

pub open spec fn termina(p: PartiTV, valida: bool) -> ValidacionV {
    if valida {
        ValidacionV { partida: p, fase: FaseV::Hecha }
    } else {
        ValidacionV { partida: partida_fallida(p), fase: FaseV::Hecha }
    }
}

/// The main line's first entry: the starting position alone.
pub open spec fn jugada_inicial(nivel: nat, fen: Seq<char>) -> JugadaV {
    jugada_nueva(indice_spec(dec_u(nivel), dec_i(0)), seq![], seq![], dec_i(0), seq![], fen, seq![], seq![], dec_u(nivel))
}

pub open spec fn inicia_principal(p: PartiTV, nivel: nat) -> ValidacionV {
    let fen = p.cabecera[10];
    ValidacionV {
        partida: PartiTV { arr_partida: p.arr_partida.push(seq![jugada_inicial(nivel, fen)]), ..p },
        fase: FaseV::Principal(PrincipalV {
            nivel,
            fen,
            num_parentesis: 0,
            arr_fen: seq![fen],
            num_jugada: 0,
            arr_var: seq![],
            index: 0,
            parada: false,
        }),
    }
}

pub open spec fn inicia_variantes(p: PartiTV) -> ValidacionV {
    ValidacionV {
        partida: p,
        fase: FaseV::Variantes(VariantesV {
            idx_par: 1,
            long_parti: p.arr_partida.len(),
            en_linea: false,
            parentesis: 0,
            arr_var: seq![],
            arr_fen: seq![],
            num_jugada: 0,
            profundidad: 0,
            pos_ini: 0,
            idx_var: 1,
            long_var: 0,
        }),
    }
}

/// The main line has no token left to read.
pub open spec fn principal_acabada(p: PartiTV, st: PrincipalV) -> bool {
    st.parada || st.index >= p.movims.len()
}

/// The token of the main line needs the engine: it is outside any variation
/// and it is neither a NAG, a comment nor an opening parenthesis.
pub open spec fn token_de_motor(st: PrincipalV, tok: Seq<char>) -> bool {
    st.num_parentesis == 0 && !empieza_con(tok, '$') && !empieza_con(tok, '{') && tok != seq!['(']
}

/// The entry that stands for a token inside a variation of the main line.
pub open spec fn jugada_de_variante(p: PartiTV, st: PrincipalV, tok: Seq<char>, abre: bool) -> JugadaV {
    let njv = st.num_jugada;
    if abre {
        jugada_nueva(
            indice_spec(dec_u(p.arr_partida.len()), dec_i(njv)),
            tok,
            tok,
            dec_i(njv),
            turno_de_fen(st.fen),
            st.arr_fen[st.arr_fen.len() - 2],
            seq![],
            seq![],
            dec_u(st.nivel + 1),
        )
    } else {
        jugada_nueva(
            indice_spec(dec_u(p.arr_partida.len()), dec_i(njv + 1)),
            tok,
            tok,
            dec_i(njv + 1),
            seq![],
            seq![],
            seq![],
            seq![],
            dec_u(st.nivel + 1),
        )
    }
}

/// One token of the main line that does not need the engine.
pub open spec fn paso_principal_sin_motor(p: PartiTV, st: PrincipalV) -> ValidacionV {
    let tok = p.movims[st.index as int];
    let a = p.arr_partida;
    let n = st.nivel as int;
    let ult = a[n].len() - 1;
    let st1 = PrincipalV { index: st.index + 1, ..st };
    if st.num_parentesis == 0 && empieza_con(tok, '$') {
        ValidacionV {
            partida: PartiTV { arr_partida: cambia_jugada(a, n, ult, JugadaV { nag: tok, ..a[n][ult] }), ..p },
            fase: FaseV::Principal(st1),
        }
    } else if st.num_parentesis == 0 && empieza_con(tok, '{') {
        ValidacionV {
            partida: PartiTV { arr_partida: cambia_jugada(a, n, ult, JugadaV { comen: tok, ..a[n][ult] }), ..p },
            fase: FaseV::Principal(st1),
        }
    } else {
        let np1 = if tok == seq!['('] { st.num_parentesis + 1 } else { st.num_parentesis };
        let jug = jugada_de_variante(p, st, tok, np1 == 1 && tok == seq!['(']);
        let av = st.arr_var;
        let av1 = if tok[0] != '$' && tok[0] != '{' {
            av.push(jug)
        } else if tok[0] == '$' {
            av.update(av.len() - 1, JugadaV { nag: tok, ..av[av.len() - 1] })
        } else {
            av.update(av.len() - 1, JugadaV { comen: tok, ..av[av.len() - 1] })
        };
        if empieza_con(tok, ')') && np1 - 1 == 0 {
            let a1 = a.push(av1);
            let l1 = a1[n].len() - 1;
            let a2 = cambia_jugada(a1, n, l1, JugadaV { sub_var: a1[n][l1].sub_var.push((a1.len() - 1) as usize), ..a1[n][l1] });
            ValidacionV {
                partida: PartiTV { arr_partida: a2, ..p },
                fase: FaseV::Principal(PrincipalV { num_parentesis: 0, arr_var: seq![], ..st1 }),
            }
        } else {
            let np2 = if empieza_con(tok, ')') { np1 - 1 } else { np1 };
            ValidacionV {
                partida: p,
                fase: FaseV::Principal(PrincipalV { num_parentesis: np2, arr_var: av1, ..st1 }),
            }
        }
    }
}

/// One token of the main line, played on the engine with answer `r`.
pub open spec fn paso_principal_con_motor(p: PartiTV, st: PrincipalV, r: Option<RespuestaJugadaV>) -> ValidacionV {
    let a = p.arr_partida;
    let n = st.nivel as int;
    let st1 = PrincipalV { index: st.index + 1, ..st };
    let lav = st.arr_var.len();
    match r {
        Some(j) => {
            let nj1 = if st.num_jugada == 0 && j.turno == seq!['b'] { 1int } else { st.num_jugada };
            let nj2 = nj1 + 1;
            let jug = jugada_nueva(indice_spec(dec_u(lav), dec_i(nj2)), j.san, j.uci, dec_i(nj2), j.turno, j.fen, seq![], seq![], dec_u(st.nivel));
            ValidacionV {
                partida: PartiTV { arr_partida: a.update(n, a[n].push(jug)), ..p },
                fase: FaseV::Principal(PrincipalV { num_jugada: nj2, arr_fen: st.arr_fen.push(j.fen), ..st1 }),
            }
        },
        None => {
            let nj2 = st.num_jugada + 1;
            let res = p.cabecera[6];
            let jug = jugada_nueva(indice_spec(dec_u(lav), dec_i(nj2)), res, res, dec_i(nj2), seq![], seq![], seq![], seq![], dec_u(st.nivel));
            ValidacionV {
                partida: PartiTV { arr_partida: a.update(n, a[n].push(jug)), ..p },
                fase: FaseV::Principal(PrincipalV { num_jugada: nj2, parada: true, ..st1 }),
            }
        },
    }
}

/// The line the variations are reading has no entry left.
pub open spec fn linea_acabada(st: VariantesV) -> bool {
    st.idx_var > st.long_var
}

/// The entry of the variation being read needs the engine: it is outside any
/// sub-variation and it is neither `(` nor `)`.
pub open spec fn entrada_de_motor(st: VariantesV, e: JugadaV) -> bool {
    e.san != seq!['('] && st.parentesis == 0 && e.san != seq![')']
}

/// Starting the reading of line `idx_par` once the engine has set its FEN.
pub open spec fn inicia_linea(p: PartiTV, st: VariantesV) -> VariantesV {
    let l = p.arr_partida[st.idx_par as int];
    VariantesV {
        en_linea: true,
        parentesis: 0,
        arr_var: seq![],
        arr_fen: seq![],
        num_jugada: lee_i16_spec(l[0].num_jug)->0,
        profundidad: 0,
        pos_ini: 0,
        idx_var: 1,
        long_var: (l.len() - 1) as nat,
        ..st
    }
}

/// One entry of a variation that does not need the engine.
pub open spec fn paso_variante_sin_motor(p: PartiTV, st: VariantesV) -> ValidacionV {
    let a = p.arr_partida;
    let ip = st.idx_par as int;
    let iv = st.idx_var as int;
    let e = a[ip][iv];
    let par1 = if e.san == seq!['('] { st.parentesis + 1 } else { st.parentesis };
    if e.san == seq!['('] && par1 == 1 {
        // a sub-variation opens: its first entry gets the depth, the position
        // before the last move and the index of the line it will become
        let prof = lee_i16_spec(a[ip][0].profundidad)->0 + 1;
        let av1 = st.arr_var.push(e);
        let av2 = av1.update(0, JugadaV {
            profundidad: dec_i(prof),
            fen: st.arr_fen[st.arr_fen.len() - 2],
            idx_jug: indice_spec(dec_u(a.len()), av1[0].num_jug),
            ..av1[0]
        });
        ValidacionV {
            partida: p,
            fase: FaseV::Variantes(VariantesV {
                parentesis: par1,
                profundidad: prof,
                arr_var: av2,
                pos_ini: st.idx_var,
                idx_var: st.idx_var + 1,
                ..st
            }),
        }
    } else if par1 > 0 {
        let av1 = st.arr_var.push(JugadaV { profundidad: dec_i(st.profundidad), ..e });
        if e.san == seq![')'] && par1 - 1 == 0 {
            // the sub-variation closes: it becomes a line of its own, leaves
            // the variation, and the entry before it links to it
            let a1 = a.push(av1);
            let l = a1[ip];
            let pi = st.pos_ini as int;
            let l1 = l.subrange(0, pi) + l.subrange(iv + 1, l.len() as int);
            let l2 = l1.update(pi - 1, JugadaV { sub_var: l1[pi - 1].sub_var.push(st.long_parti as usize), ..l1[pi - 1] });
            ValidacionV {
                partida: PartiTV { arr_partida: a1.update(ip, l2), ..p },
                fase: FaseV::Variantes(VariantesV {
                    parentesis: 0,
                    arr_var: seq![],
                    long_parti: st.long_parti + 1,
                    idx_var: (iv - (iv - pi + 1) + 1) as nat,
                    ..st
                }),
            }
        } else {
            let par2 = if e.san == seq![')'] { par1 - 1 } else { par1 };
            ValidacionV {
                partida: p,
                fase: FaseV::Variantes(VariantesV {
                    parentesis: par2,
                    arr_var: av1,
                    idx_var: st.idx_var + 1,
                    ..st
                }),
            }
        }
    } else {
        // the variation ends at its `)`: the entry gets the next move number
        let nj = st.num_jugada + 1;
        let e1 = JugadaV { idx_jug: indice_spec(dec_u(st.idx_par), dec_i(nj)), num_jug: dec_i(nj), ..e };
        ValidacionV {
            partida: PartiTV { arr_partida: cambia_jugada(a, ip, iv, e1), ..p },
            fase: FaseV::Variantes(VariantesV { num_jugada: nj, idx_par: st.idx_par + 1, en_linea: false, ..st }),
        }
    }
}

/// One entry of a variation, played on the engine with answer `r`.
pub open spec fn paso_variante_con_motor(p: PartiTV, st: VariantesV, r: Option<RespuestaJugadaV>) -> ValidacionV {
    let a = p.arr_partida;
    let ip = st.idx_par as int;
    let iv = st.idx_var as int;
    let e = a[ip][iv];
    match r {
        None => termina(p, false),
        Some(j) => {
            let turno = if j.turno == seq!['w'] { seq!['b'] } else { seq!['w'] };
            let nj = st.num_jugada + 1;
            let e1 = JugadaV {
                uci: j.uci,
                fen: j.fen,
                turno: turno,
                num_jug: dec_i(nj),
                idx_jug: indice_spec(dec_u(st.idx_par), dec_i(nj)),
                ..e
            };
            ValidacionV {
                partida: PartiTV { arr_partida: cambia_jugada(a, ip, iv, e1), ..p },
                fase: FaseV::Variantes(VariantesV {
                    num_jugada: nj,
                    arr_fen: st.arr_fen.push(j.fen),
                    idx_var: st.idx_var + 1,
                    ..st
                }),
            }
        },
    }
}

/// One step of the reading of the variations.
pub open spec fn paso_variantes(p: PartiTV, st: VariantesV, r: RespuestaV) -> ValidacionV {
    if !st.en_linea {
        if st.idx_par >= st.long_parti {
            termina(p, true)
        } else {
            match r {
                RespuestaV::FenValida(true) => ValidacionV {
                    partida: p,
                    fase: FaseV::Variantes(inicia_linea(p, st)),
                },
                _ => termina(p, false),
            }
        }
    } else if linea_acabada(st) {
        ValidacionV {
            partida: p,
            fase: FaseV::Variantes(VariantesV { idx_par: st.idx_par + 1, en_linea: false, ..st }),
        }
    } else if entrada_de_motor(st, p.arr_partida[st.idx_par as int][st.idx_var as int]) {
        match r {
            RespuestaV::Jugada(j) => paso_variante_con_motor(p, st, j),
            _ => paso_variante_con_motor(p, st, None),
        }
    } else {
        paso_variante_sin_motor(p, st)
    }
}

/// What the validation asks of the engine in state `v`.
pub open spec fn peticion_spec(v: ValidacionV) -> PeticionV {
    let p = v.partida;
    match v.fase {
        FaseV::FenPrincipal(_) => PeticionV::FijaFen(p.cabecera[10]),
        FaseV::Principal(st) => if !principal_acabada(p, st) && token_de_motor(st, p.movims[st.index as int]) {
            PeticionV::Mueve(p.movims[st.index as int])
        } else {
            PeticionV::Ninguna
        },
        FaseV::Variantes(st) => if !st.en_linea {
            if st.idx_par >= st.long_parti {
                PeticionV::Ninguna
            } else {
                PeticionV::FijaFen(p.arr_partida[st.idx_par as int][0].fen)
            }
        } else if !linea_acabada(st) && entrada_de_motor(st, p.arr_partida[st.idx_par as int][st.idx_var as int]) {
            PeticionV::Mueve(p.arr_partida[st.idx_par as int][st.idx_var as int].san)
        } else {
            PeticionV::Ninguna
        },
        FaseV::Hecha => PeticionV::Terminada,
    }
}

/// The validation after the engine answered `r` in state `v`.
pub open spec fn avanza_spec(v: ValidacionV, r: RespuestaV) -> ValidacionV {
    let p = v.partida;
    match v.fase {
        FaseV::FenPrincipal(nivel) => match r {
            RespuestaV::FenValida(true) => inicia_principal(p, nivel),
            _ => termina(p, false),
        },
        FaseV::Principal(st) => if principal_acabada(p, st) {
            inicia_variantes(p)
        } else if token_de_motor(st, p.movims[st.index as int]) {
            match r {
                RespuestaV::Jugada(j) => paso_principal_con_motor(p, st, j),
                _ => paso_principal_con_motor(p, st, None),
            }
        } else {
            paso_principal_sin_motor(p, st)
        },
        FaseV::Variantes(st) => paso_variantes(p, st, r),
        FaseV::Hecha => v,
    }
}

/// The answer has the kind that the request asks for.
pub open spec fn respuesta_acorde(q: PeticionV, r: RespuestaV) -> bool {
    match q {
        PeticionV::FijaFen(_) => r is FenValida,
        PeticionV::Mueve(_) => r is Jugada,
        _ => r is Nada,
    }
}

/// Every line of the game has an entry.
pub open spec fn lineas_no_vacias(a: Seq<Seq<JugadaV>>) -> bool {
    forall|i: int| 0 <= i < a.len() ==> (#[trigger] a[i]).len() > 0
}

/// The invariant of the validation: the header has its eleven fields, every
/// line has an entry, and the state points into the game.
pub open spec fn bien_formada(v: ValidacionV) -> bool {
    let p = v.partida;
    let a = p.arr_partida;
    &&& p.cabecera.len() > 10
    &&& lineas_no_vacias(a)
    &&& match v.fase {
        FaseV::FenPrincipal(n) => n <= a.len(),
        FaseV::Principal(st) => {
            &&& st.nivel < a.len()
            &&& st.index <= p.movims.len()
            &&& 0 <= st.num_parentesis
            &&& (st.num_parentesis > 0 ==> st.arr_var.len() > 0)
            &&& st.arr_fen.len() >= 1
        },
        FaseV::Variantes(st) => {
            &&& st.long_parti == a.len()
            &&& 1 <= st.idx_par
            &&& (st.en_linea ==> {
                &&& st.idx_par < a.len()
                &&& 1 <= st.idx_var
                &&& 0 <= st.parentesis
                &&& (st.parentesis > 0 ==> 1 <= st.pos_ini < st.idx_var)
            })
        },
        FaseV::Hecha => true,
    }
}

/// The token can be read: the FEN of the line has a side to move, no
/// counter overflows, and the positions it reads exist.
pub open spec fn paso_principal_definido(p: PartiTV, st: PrincipalV, r: RespuestaV) -> bool {
    let tok = p.movims[st.index as int];
    let np1 = if tok == seq!['('] { st.num_parentesis + 1 } else { st.num_parentesis };
    &&& palabras_spec(st.fen).len() >= 2
    &&& if token_de_motor(st, tok) {
        match r {
            RespuestaV::Jugada(Some(j)) => (if st.num_jugada == 0 && j.turno == seq!['b'] {
                1int
            } else {
                st.num_jugada
            }) < i16::MAX,
            _ => st.num_jugada < i16::MAX,
        }
    } else if st.num_parentesis == 0 && (empieza_con(tok, '$') || empieza_con(tok, '{')) {
        true
    } else {
        &&& (tok == seq!['('] ==> st.num_parentesis < i16::MAX)
        &&& tok.len() > 0
        &&& (np1 == 1 && tok == seq!['('] ==> st.arr_fen.len() >= 2)
        &&& st.num_jugada < i16::MAX
        &&& (tok.len() > 0 && (tok[0] == '$' || tok[0] == '{') ==> st.arr_var.len() > 0)
    }
}

/// The entry of the variation can be read: no counter overflows, the depth of
/// the line is a number, and the positions it reads exist.
pub open spec fn paso_variantes_definido(p: PartiTV, st: VariantesV, r: RespuestaV) -> bool {
    let a = p.arr_partida;
    let ip = st.idx_par as int;
    let iv = st.idx_var as int;
    if !st.en_linea {
        st.idx_par >= st.long_parti || lee_i16_spec(a[ip][0].num_jug) is Some
    } else if linea_acabada(st) {
        true
    } else {
        &&& st.idx_var < a[ip].len()
        &&& {
            let e = a[ip][iv];
            let par1 = if e.san == seq!['('] { st.parentesis + 1 } else { st.parentesis };
            if entrada_de_motor(st, e) {
                r matches RespuestaV::Jugada(Some(_)) ==> st.num_jugada < i16::MAX
            } else {
                &&& (e.san == seq!['('] ==> st.parentesis < i16::MAX)
                &&& (e.san == seq!['('] && par1 == 1 ==> {
                    &&& lee_i16_spec(a[ip][0].profundidad) matches Some(x)
                    &&& x < i16::MAX
                    &&& st.arr_fen.len() >= 2
                })
                &&& (par1 == 0 ==> st.num_jugada < i16::MAX)
            }
        }
    }
}

/// The answer fits the request and the step reads the game without failing.
pub open spec fn paso_definido(v: ValidacionV, r: RespuestaV) -> bool {
    let p = v.partida;
    &&& respuesta_acorde(peticion_spec(v), r)
    &&& match v.fase {
        FaseV::Principal(st) => principal_acabada(p, st) || paso_principal_definido(p, st, r),
        FaseV::Variantes(st) => paso_variantes_definido(p, st, r),
        _ => true,
    }
}

// ---------------------------------------------------------------------------
// Helpers on the lines of a game
// ---------------------------------------------------------------------------

fn pone_jugada(a: &mut Vec<Vec<MoveT>>, i: usize, j: usize, m: MoveT)
    requires
        i < old(a)@.len(),
        j < old(a)@[i as int]@.len(),
    ensures
        vista_lineas(final(a)@) == cambia_jugada(vista_lineas(old(a)@), i as int, j as int, m@),
{
    let ghost mv = m@;
    a[i][j] = m;
    assert(vista_linea(a@[i as int]@) =~= vista_linea(old(a)@[i as int]@).update(j as int, mv));
    assert(vista_lineas(a@) =~= cambia_jugada(vista_lineas(old(a)@), i as int, j as int, mv));
}

fn empuja_jugada(a: &mut Vec<Vec<MoveT>>, i: usize, m: MoveT)
    requires
        i < old(a)@.len(),
    ensures
        vista_lineas(final(a)@) == vista_lineas(old(a)@).update(
            i as int,
            vista_lineas(old(a)@)[i as int].push(m@),
        ),
{
    let ghost mv = m@;
    a[i].push(m);
    assert(vista_linea(a@[i as int]@) =~= vista_linea(old(a)@[i as int]@).push(mv));
    assert(vista_lineas(a@) =~= vista_lineas(old(a)@).update(
        i as int,
        vista_lineas(old(a)@)[i as int].push(mv),
    ));
}

fn empuja_linea(a: &mut Vec<Vec<MoveT>>, l: Vec<MoveT>)
    ensures
        vista_lineas(final(a)@) == vista_lineas(old(a)@).push(vista_linea(l@)),
{
    let ghost lv = vista_linea(l@);
    a.push(l);
    assert(vista_lineas(a@) =~= vista_lineas(old(a)@).push(lv));
}

fn quita_tramo(a: &mut Vec<Vec<MoveT>>, i: usize, ini: usize, fin: usize)
    requires
        i < old(a)@.len(),
        ini <= fin < old(a)@[i as int]@.len(),
    ensures
        vista_lineas(final(a)@) == vista_lineas(old(a)@).update(
            i as int,
            vista_lineas(old(a)@)[i as int].subrange(0, ini as int) + vista_lineas(
                old(a)@,
            )[i as int].subrange(fin + 1, vista_lineas(old(a)@)[i as int].len() as int),
        ),
{
    let ghost l0 = vista_lineas(old(a)@)[i as int];
    let n = a[i].len();
    let mut k: usize = fin + 1;
    while k > ini
        invariant
            ini <= k <= fin + 1,
            fin < l0.len(),
            i < a@.len(),
            a@.len() == old(a)@.len(),
            forall|x: int| 0 <= x < a@.len() && x != i ==> a@[x] == old(a)@[x],
            vista_linea(a@[i as int]@) == l0.subrange(0, k as int) + l0.subrange(fin + 1, l0.len() as int),
        decreases k,
    {
        k = k - 1;
        let ghost antes = vista_linea(a@[i as int]@);
        assert(antes.len() == a@[i as int]@.len());
        a[i].remove(k);
        assert(vista_linea(a@[i as int]@) =~= antes.remove(k as int));
        assert(antes.remove(k as int) =~= l0.subrange(0, k as int) + l0.subrange(fin + 1, l0.len() as int));
    }
    assert(vista_lineas(a@) =~= vista_lineas(old(a)@).update(
        i as int,
        l0.subrange(0, ini as int) + l0.subrange(fin + 1, l0.len() as int),
    ));
}

// ---------------------------------------------------------------------------
// Helpers on texts
// ---------------------------------------------------------------------------

fn texto_u(n: usize) -> (r: String)
    ensures
        r@ == dec_u(n as nat),
{
    cadena(&texto_natural(n as u64))
}

fn texto_i(n: i16) -> (r: String)
    ensures
        r@ == dec_i(n as int),
{
    cadena(&texto_entero(n as i64))
}

/// The index text `Var{a}Mv{b}`.
fn indice_jugada(a: &String, b: &String) -> (r: String)
    ensures
        r@ == indice_spec(a@, b@),
{
    let mut v: Vec<char> = Vec::new();
    v.push('V');
    v.push('a');
    v.push('r');
    let av = caracteres(a.as_str());
    let bv = caracteres(b.as_str());
    let mut k: usize = 0;
    while k < av.len()
        invariant
            k <= av.len(),
            v@ == seq!['V', 'a', 'r'] + av@.take(k as int),
        decreases av.len() - k,
    {
        v.push(av[k]);
        assert(av@.take(k + 1) == av@.take(k as int).push(av@[k as int]));
        k = k + 1;
    }
    assert(av@.take(av.len() as int) == av@);
    v.push('M');
    v.push('v');
    let mut k: usize = 0;
    let ghost base = v@;
    while k < bv.len()
        invariant
            k <= bv.len(),
            v@ == base + bv@.take(k as int),
        decreases bv.len() - k,
    {
        v.push(bv[k]);
        assert(bv@.take(k + 1) == bv@.take(k as int).push(bv@[k as int]));
        k = k + 1;
    }
    assert(bv@.take(bv.len() as int) == bv@);
    assert(v@ =~= indice_spec(a@, b@));
    cadena(&v)
}

/// `s` is the one-character text `c`.
fn es_caracter(s: &String, c: char) -> (b: bool)
    ensures
        b == (s@ == seq![c]),
{
    let v = caracteres(s.as_str());
    if v.len() == 1 && v[0] == c {
        assert(v@ =~= seq![c]);
        true
    } else {
        false
    }
}

/// `s` begins with `c`.
fn empieza(s: &String, c: char) -> (b: bool)
    ensures
        b == empieza_con(s@, c),
{
    let v = caracteres(s.as_str());
    v.len() > 0 && v[0] == c
}

fn de_caracter(c: char) -> (r: String)
    ensures
        r@ == seq![c],
{
    let mut v: Vec<char> = Vec::new();
    v.push(c);
    assert(v@ =~= seq![c]);
    cadena(&v)
}

fn turno_de(fen: &String) -> (r: String)
    requires
        palabras_spec(fen@).len() >= 2,
    ensures
        r@ == turno_de_fen(fen@),
{
    let ps = palabras(&caracteres(fen.as_str()));
    assert(vistas(ps@)[1] == ps@[1]@);
    let w = &ps[1];
    if w.len() == 1 && w[0] == 'w' {
        assert(w@ =~= seq!['w']);
        de_caracter('b')
    } else {
        de_caracter('w')
    }
}

// ---------------------------------------------------------------------------
// The steps of the main line
// ---------------------------------------------------------------------------

fn estado_principal(
    nivel: usize,
    fen: String,
    num_parentesis: i16,
    arr_fen: Vec<String>,
    num_jugada: i16,
    arr_var: Vec<MoveT>,
    index: usize,
    parada: bool,
) -> (st: EstadoPrincipal)
    ensures
        st@ == (PrincipalV {
            nivel: nivel as nat,
            fen: fen@,
            num_parentesis: num_parentesis as int,
            arr_fen: vista_cadenas_fen(arr_fen@),
            num_jugada: num_jugada as int,
            arr_var: vista_linea(arr_var@),
            index: index as nat,
            parada,
        }),
{
    EstadoPrincipal { nivel, fen, num_parentesis, arr_fen, num_jugada, arr_var, index, parada }
}

/// One token of the main line that does not need the engine: a NAG or a
/// comment of the last move, or a token of a variation, which is kept for
/// `linea_variantes` and becomes a line of its own when the variation closes.
fn principal_sin_motor(partida: PartiT, st: EstadoPrincipal) -> (v: Validacion)
    requires
        bien_formada(ValidacionV { partida: partida@, fase: FaseV::Principal(st@) }),
        !principal_acabada(partida@, st@),
        !token_de_motor(st@, partida@.movims[st@.index as int]),
        paso_principal_definido(partida@, st@, RespuestaV::Nada),
    ensures
        v@ == paso_principal_sin_motor(partida@, st@),
{
    let ghost p0 = partida@;
    let ghost s0 = st@;
    let EstadoPrincipal { nivel, fen, num_parentesis, arr_fen, num_jugada, mut arr_var, index, parada } = st;
    let mut partida = partida;
    assert(partida.movims@.len() == p0.movims.len());
    assert(s0.index == index);
    let n_movims = partida.movims.len();
    assert(index < n_movims);
    let tok = partida.movims[index].clone();
    let sig = index + 1;
    assert(tok@ == p0.movims[index as int]);
    assert(partida.arr_partida@[nivel as int]@.len() == p0.arr_partida[nivel as int].len());
    let ult = partida.arr_partida[nivel].len() - 1;
    if num_parentesis == 0 && empieza(&tok, '$') {
        let mut m = partida.arr_partida[nivel][ult].copia();
        m.nag = tok;
        pone_jugada(&mut partida.arr_partida, nivel, ult, m);
        let st1 = estado_principal(nivel, fen, num_parentesis, arr_fen, num_jugada, arr_var, sig, parada);
        return Validacion { partida, fase: Fase::Principal(st1) };
    }
    if num_parentesis == 0 && empieza(&tok, '{') {
        let mut m = partida.arr_partida[nivel][ult].copia();
        m.comen = tok;
        pone_jugada(&mut partida.arr_partida, nivel, ult, m);
        let st1 = estado_principal(nivel, fen, num_parentesis, arr_fen, num_jugada, arr_var, sig, parada);
        return Validacion { partida, fase: Fase::Principal(st1) };
    }
    let abre = es_caracter(&tok, '(');
    let np1: i16 = if abre {
        num_parentesis + 1
    } else {
        num_parentesis
    };
    let largo = partida.arr_partida.len();
    let jug = if np1 == 1 && abre {
        MoveT::crea_jugada(
            indice_jugada(&texto_u(largo), &texto_i(num_jugada)),
            tok.clone(),
            tok.clone(),
            texto_i(num_jugada),
            turno_de(&fen),
            arr_fen[arr_fen.len() - 2].clone(),
            String::new(),
            String::new(),
            texto_u(nivel + 1),
        )
    } else {
        MoveT::crea_jugada(
            indice_jugada(&texto_u(largo), &texto_i(num_jugada + 1)),
            tok.clone(),
            tok.clone(),
            texto_i(num_jugada + 1),
            String::new(),
            String::new(),
            String::new(),
            String::new(),
            texto_u(nivel + 1),
        )
    };
    assert(jug@ == jugada_de_variante(p0, s0, tok@, np1 == 1 && abre));
    let tc = caracteres(tok.as_str());
    let c0 = tc[0];
    let ghost av0 = vista_linea(arr_var@);
    if c0 != '$' && c0 != '{' {
        let ghost jv = jug@;
        arr_var.push(jug);
        assert(vista_linea(arr_var@) =~= av0.push(jv));
    } else if c0 == '$' {
        let l = arr_var.len() - 1;
        let mut m = arr_var[l].copia();
        m.nag = tok.clone();
        let ghost mv = m@;
        arr_var[l] = m;
        assert(vista_linea(arr_var@) =~= av0.update(l as int, mv));
    } else {
        let l = arr_var.len() - 1;
        let mut m = arr_var[l].copia();
        m.comen = tok.clone();
        let ghost mv = m@;
        arr_var[l] = m;
        assert(vista_linea(arr_var@) =~= av0.update(l as int, mv));
    }
    let cierra = c0 == ')';
    if cierra && np1 - 1 == 0 {
        empuja_linea(&mut partida.arr_partida, arr_var);
        assert(partida.arr_partida@.len() == partida@.arr_partida.len());
        assert(nivel < partida.arr_partida@.len());
        assert(partida.arr_partida@[nivel as int]@.len() == partida@.arr_partida[nivel as int].len());
        let l1 = partida.arr_partida[nivel].len() - 1;
        let l2 = partida.arr_partida.len() - 1;
        let mut m = partida.arr_partida[nivel][l1].copia();
        m.sub_var.push(l2);
        pone_jugada(&mut partida.arr_partida, nivel, l1, m);
        let vacia: Vec<MoveT> = Vec::new();
        assert(vista_linea(vacia@) =~= Seq::<JugadaV>::empty());
        let st1 = estado_principal(nivel, fen, 0, arr_fen, num_jugada, vacia, sig, parada);
        Validacion { partida, fase: Fase::Principal(st1) }
    } else {
        let np2: i16 = if cierra {
            np1 - 1
        } else {
            np1
        };
        let st1 = estado_principal(nivel, fen, np2, arr_fen, num_jugada, arr_var, sig, parada);
        Validacion { partida, fase: Fase::Principal(st1) }
    }
}

pub open spec fn vista_respuesta(o: Option<RespuestaJugada>) -> Option<RespuestaJugadaV> {
    match o {
        Some(j) => Some(j@),
        None => None,
    }
}

/// One token of the main line played on the engine: a move it accepted is
/// added with its SAN, UCI, side and FEN; a move it refused ends the line
/// with the game's result.
fn principal_con_motor(partida: PartiT, st: EstadoPrincipal, r: Option<RespuestaJugada>) -> (v: Validacion)
    requires
        bien_formada(ValidacionV { partida: partida@, fase: FaseV::Principal(st@) }),
        !principal_acabada(partida@, st@),
        token_de_motor(st@, partida@.movims[st@.index as int]),
        paso_principal_definido(partida@, st@, RespuestaV::Jugada(vista_respuesta(r))),
    ensures
        v@ == paso_principal_con_motor(partida@, st@, vista_respuesta(r)),
{
    let ghost p0 = partida@;
    let ghost s0 = st@;
    let EstadoPrincipal { nivel, fen, num_parentesis, mut arr_fen, num_jugada, arr_var, index, parada } = st;
    let mut partida = partida;
    let n_movims = partida.movims.len();
    assert(index < n_movims);
    let sig = index + 1;
    let lav = arr_var.len();
    match r {
        Some(j) => {
            let nj1: i16 = if num_jugada == 0 && es_caracter(&j.turno, 'b') {
                1
            } else {
                num_jugada
            };
            let nj2 = nj1 + 1;
            let fen_j = j.fen.clone();
            let jug = MoveT::crea_jugada(
                indice_jugada(&texto_u(lav), &texto_i(nj2)),
                j.san,
                j.uci,
                texto_i(nj2),
                j.turno,
                j.fen,
                String::new(),
                String::new(),
                texto_u(nivel),
            );
            empuja_jugada(&mut partida.arr_partida, nivel, jug);
            let ghost f0 = vista_cadenas_fen(arr_fen@);
            let ghost fj = fen_j@;
            arr_fen.push(fen_j);
            assert(vista_cadenas_fen(arr_fen@) =~= f0.push(fj));
            let st1 = estado_principal(nivel, fen, num_parentesis, arr_fen, nj2, arr_var, sig, parada);
            Validacion { partida, fase: Fase::Principal(st1) }
        },
        None => {
            let nj2 = num_jugada + 1;
            let res = partida.cabecera[6].clone();
            assert(res@ == p0.cabecera[6]);
            let jug = MoveT::crea_jugada(
                indice_jugada(&texto_u(lav), &texto_i(nj2)),
                res.clone(),
                res,
                texto_i(nj2),
                String::new(),
                String::new(),
                String::new(),
                String::new(),
                texto_u(nivel),
            );
            empuja_jugada(&mut partida.arr_partida, nivel, jug);
            let st1 = estado_principal(nivel, fen, num_parentesis, arr_fen, nj2, arr_var, sig, true);
            Validacion { partida, fase: Fase::Principal(st1) }
        },
    }
}

// ---------------------------------------------------------------------------
// The end of the validation
// ---------------------------------------------------------------------------

/// Ends the validation; a game whose moves did not validate keeps only its
/// starting position and its result.
fn termina_exec(partida: PartiT, valida: bool) -> (v: Validacion)
    requires
        partida@.cabecera.len() > 10,
    ensures
        v@ == termina(partida@, valida),
{
    if valida {
        return Validacion { partida, fase: Fase::Hecha };
    }
    let mut partida = partida;
    let res = partida.cabecera[6].clone();
    let primero = MoveT::crea_jugada(
        String::from_str("Var0Mv0"),
        String::new(),
        String::new(),
        String::from_str("0"),
        String::new(),
        String::from_str("rnbqkbnr/pppppppp/8/8/8/8/PPPPPPPP/RNBQKBNR w KQkq - 0 1"),
        String::new(),
        String::new(),
        String::from_str("0"),
    );
    let ultimo = MoveT::crea_jugada(
        String::from_str("Var0Mv1"),
        res.clone(),
        res,
        String::from_str("1"),
        String::new(),
        String::new(),
        String::new(),
        String::new(),
        String::from_str("0"),
    );
    let ghost pv = primero@;
    let ghost uv = ultimo@;
    let mut linea: Vec<MoveT> = Vec::new();
    linea.push(primero);
    linea.push(ultimo);
    let mut lineas: Vec<Vec<MoveT>> = Vec::new();
    lineas.push(linea);
    assert(vista_lineas(lineas@) =~= seq![seq![pv, uv]]) by {
        assert(vista_linea(lineas@[0]@) =~= seq![pv, uv]);
    }
    partida.arr_partida = lineas;
    Validacion { partida, fase: Fase::Hecha }
}

// ---------------------------------------------------------------------------
// The steps of the variations
// ---------------------------------------------------------------------------

fn estado_variantes(
    idx_par: usize,
    long_parti: usize,
    en_linea: bool,
    parentesis: i16,
    arr_var: Vec<MoveT>,
    arr_fen: Vec<String>,
    num_jugada: i16,
    profundidad: i16,
    pos_ini: usize,
    idx_var: usize,
    long_var: usize,
) -> (st: EstadoVariantes)
    ensures
        st@ == (VariantesV {
            idx_par: idx_par as nat,
            long_parti: long_parti as nat,
            en_linea,
            parentesis: parentesis as int,
            arr_var: vista_linea(arr_var@),
            arr_fen: vista_cadenas_fen(arr_fen@),
            num_jugada: num_jugada as int,
            profundidad: profundidad as int,
            pos_ini: pos_ini as nat,
            idx_var: idx_var as nat,
            long_var: long_var as nat,
        }),
{
    EstadoVariantes {
        idx_par,
        long_parti,
        en_linea,
        parentesis,
        arr_var,
        arr_fen,
        num_jugada,
        profundidad,
        pos_ini,
        idx_var,
        long_var,
    }
}

/// One entry of a variation that does not need the engine: the entries of a
/// sub-variation are gathered, and become a line of their own when it closes;
/// the variation's own `)` ends it.
fn variante_sin_motor(partida: PartiT, st: EstadoVariantes) -> (v: Validacion)
    requires
        bien_formada(ValidacionV { partida: partida@, fase: FaseV::Variantes(st@) }),
        st@.en_linea,
        !linea_acabada(st@),
        paso_variantes_definido(partida@, st@, RespuestaV::Nada),
        !entrada_de_motor(st@, partida@.arr_partida[st@.idx_par as int][st@.idx_var as int]),
    ensures
        v@ == paso_variante_sin_motor(partida@, st@),
{
    let ghost p0 = partida@;
    let ghost s0 = st@;
    let EstadoVariantes {
        idx_par,
        long_parti,
        en_linea,
        parentesis,
        mut arr_var,
        arr_fen,
        num_jugada,
        profundidad,
        pos_ini,
        idx_var,
        long_var,
    } = st;
    let mut partida = partida;
    let n_lineas = partida.arr_partida.len();
    assert(idx_par < n_lineas);
    let n_linea = partida.arr_partida[idx_par].len();
    assert(n_linea == p0.arr_partida[idx_par as int].len());
    assert(idx_var < n_linea);
    let e = partida.arr_partida[idx_par][idx_var].copia();
    let abre = es_caracter(&e.san, '(');
    let cierra = es_caracter(&e.san, ')');
    let par1: i16 = if abre {
        parentesis + 1
    } else {
        parentesis
    };
    let ghost av0 = vista_linea(arr_var@);
    if abre && par1 == 1 {
        assert(p0.arr_partida[idx_par as int].len() > 0);
        let prof_txt = caracteres(partida.arr_partida[idx_par][0].profundidad.as_str());
        let x = match lee_i16(&prof_txt) {
            Some(x) => x,
            None => {
                assert(false);
                0
            },
        };
        let prof = x + 1;
        let ghost ev = e@;
        arr_var.push(e);
        assert(vista_linea(arr_var@) =~= av0.push(ev));
        let mut m0 = arr_var[0].copia();
        m0.profundidad = texto_i(prof);
        m0.fen = arr_fen[arr_fen.len() - 2].clone();
        m0.idx_jug = indice_jugada(&texto_u(n_lineas), &m0.num_jug);
        let ghost av1 = vista_linea(arr_var@);
        let ghost mv = m0@;
        arr_var[0] = m0;
        assert(vista_linea(arr_var@) =~= av1.update(0, mv));
        let st1 = estado_variantes(
            idx_par,
            long_parti,
            en_linea,
            par1,
            arr_var,
            arr_fen,
            num_jugada,
            prof,
            idx_var,
            idx_var + 1,
            long_var,
        );
        return Validacion { partida, fase: Fase::Variantes(st1) };
    }
    if par1 > 0 {
        let mut e1 = e;
        e1.profundidad = texto_i(profundidad);
        let ghost e1v = e1@;
        arr_var.push(e1);
        assert(vista_linea(arr_var@) =~= av0.push(e1v));
        if cierra && par1 - 1 == 0 {
            let ghost a1 = p0.arr_partida.push(vista_linea(arr_var@));
            empuja_linea(&mut partida.arr_partida, arr_var);
            assert(vista_lineas(partida.arr_partida@) == a1);
            assert(vista_lineas(partida.arr_partida@).len() == n_lineas + 1);
            assert(partida.arr_partida@.len() == n_lineas + 1);
            assert(vista_lineas(partida.arr_partida@)[idx_par as int] == p0.arr_partida[idx_par as int]);
            assert(partida.arr_partida@[idx_par as int]@.len() == n_linea);
            let lp1 = partida.arr_partida.len();
            quita_tramo(&mut partida.arr_partida, idx_par, pos_ini, idx_var);
            let k = pos_ini - 1;
            assert(vista_lineas(partida.arr_partida@).len() == n_lineas + 1);
            assert(partida.arr_partida@.len() == n_lineas + 1);
            assert(partida.arr_partida@[idx_par as int]@.len() == vista_lineas(partida.arr_partida@)[idx_par as int].len());
            let ghost l = a1[idx_par as int];
            let ghost pi = pos_ini as int;
            let ghost iv = idx_var as int;
            let ghost l1 = l.subrange(0, pi) + l.subrange(iv + 1, l.len() as int);
            assert(vista_lineas(partida.arr_partida@) == a1.update(idx_par as int, l1));
            let mut m = partida.arr_partida[idx_par][k].copia();
            assert(m@ == l1[pi - 1]);
            m.sub_var.push(long_parti);
            let ghost mv = m@;
            assert(mv == JugadaV { sub_var: l1[pi - 1].sub_var.push(s0.long_parti as usize), ..l1[pi - 1] });
            pone_jugada(&mut partida.arr_partida, idx_par, k, m);
            assert(vista_lineas(partida.arr_partida@) =~= a1.update(idx_par as int, l1.update(pi - 1, mv)));
            let vacia: Vec<MoveT> = Vec::new();
            assert(vista_linea(vacia@) =~= Seq::<JugadaV>::empty());
            let st1 = estado_variantes(
                idx_par,
                lp1,
                en_linea,
                0,
                vacia,
                arr_fen,
                num_jugada,
                profundidad,
                pos_ini,
                pos_ini,
                long_var,
            );
            Validacion { partida, fase: Fase::Variantes(st1) }
        } else {
            let par2: i16 = if cierra {
                par1 - 1
            } else {
                par1
            };
            let st1 = estado_variantes(
                idx_par,
                long_parti,
                en_linea,
                par2,
                arr_var,
                arr_fen,
                num_jugada,
                profundidad,
                pos_ini,
                idx_var + 1,
                long_var,
            );
            Validacion { partida, fase: Fase::Variantes(st1) }
        }
    } else {
        let nj = num_jugada + 1;
        let mut e1 = e;
        e1.idx_jug = indice_jugada(&texto_u(idx_par), &texto_i(nj));
        e1.num_jug = texto_i(nj);
        pone_jugada(&mut partida.arr_partida, idx_par, idx_var, e1);
        let st1 = estado_variantes(
            idx_par + 1,
            long_parti,
            false,
            parentesis,
            arr_var,
            arr_fen,
            nj,
            profundidad,
            pos_ini,
            idx_var,
            long_var,
        );
        Validacion { partida, fase: Fase::Variantes(st1) }
    }
}

/// One entry of a variation played on the engine: a move it accepted gets its
/// UCI, FEN, side and move number; a move it refused ends the validation.
fn variante_con_motor(partida: PartiT, st: EstadoVariantes, r: Option<RespuestaJugada>) -> (v: Validacion)
    requires
        bien_formada(ValidacionV { partida: partida@, fase: FaseV::Variantes(st@) }),
        st@.en_linea,
        !linea_acabada(st@),
        paso_variantes_definido(partida@, st@, RespuestaV::Jugada(vista_respuesta(r))),
        entrada_de_motor(st@, partida@.arr_partida[st@.idx_par as int][st@.idx_var as int]),
    ensures
        v@ == paso_variante_con_motor(partida@, st@, vista_respuesta(r)),
{
    let ghost p0 = partida@;
    let EstadoVariantes {
        idx_par,
        long_parti,
        en_linea,
        parentesis,
        arr_var,
        mut arr_fen,
        num_jugada,
        profundidad,
        pos_ini,
        idx_var,
        long_var,
    } = st;
    match r {
        None => termina_exec(partida, false),
        Some(j) => {
            let mut partida = partida;
            let n_lineas = partida.arr_partida.len();
            assert(idx_par < n_lineas);
            let n_linea = partida.arr_partida[idx_par].len();
            assert(n_linea == p0.arr_partida[idx_par as int].len());
            let turno = if es_caracter(&j.turno, 'w') {
                de_caracter('b')
            } else {
                de_caracter('w')
            };
            let nj = num_jugada + 1;
            let mut e = partida.arr_partida[idx_par][idx_var].copia();
            e.uci = j.uci;
            e.fen = j.fen.clone();
            e.turno = turno;
            e.num_jug = texto_i(nj);
            e.idx_jug = indice_jugada(&texto_u(idx_par), &texto_i(nj));
            pone_jugada(&mut partida.arr_partida, idx_par, idx_var, e);
            let ghost f0 = vista_cadenas_fen(arr_fen@);
            let ghost fj = j.fen@;
            arr_fen.push(j.fen);
            assert(vista_cadenas_fen(arr_fen@) =~= f0.push(fj));
            let st1 = estado_variantes(
                idx_par,
                long_parti,
                en_linea,
                parentesis,
                arr_var,
                arr_fen,
                nj,
                profundidad,
                pos_ini,
                idx_var + 1,
                long_var,
            );
            Validacion { partida, fase: Fase::Variantes(st1) }
        },
    }
}

// ---------------------------------------------------------------------------
// Starting the readings
// ---------------------------------------------------------------------------

fn inicia_principal_exec(partida: PartiT, nivel: usize) -> (v: Validacion)
    requires
        bien_formada(ValidacionV { partida: partida@, fase: FaseV::FenPrincipal(nivel as nat) }),
    ensures
        v@ == inicia_principal(partida@, nivel as nat),
{
    let ghost p0 = partida@;
    let mut partida = partida;
    let fen = partida.cabecera[10].clone();
    let jug = MoveT::crea_jugada(
        indice_jugada(&texto_u(nivel), &texto_i(0)),
        String::new(),
        String::new(),
        texto_i(0),
        String::new(),
        fen.clone(),
        String::new(),
        String::new(),
        texto_u(nivel),
    );
    let ghost jv = jug@;
    assert(jv == jugada_inicial(nivel as nat, p0.cabecera[10]));
    let mut linea: Vec<MoveT> = Vec::new();
    linea.push(jug);
    assert(vista_linea(linea@) =~= seq![jv]);
    empuja_linea(&mut partida.arr_partida, linea);
    let mut arr_fen: Vec<String> = Vec::new();
    let ghost fv = fen@;
    arr_fen.push(fen.clone());
    assert(vista_cadenas_fen(arr_fen@) =~= seq![fv]);
    let vacia: Vec<MoveT> = Vec::new();
    assert(vista_linea(vacia@) =~= Seq::<JugadaV>::empty());
    let st = estado_principal(nivel, fen, 0, arr_fen, 0, vacia, 0, false);
    Validacion { partida, fase: Fase::Principal(st) }
}

fn inicia_variantes_exec(partida: PartiT) -> (v: Validacion)
    ensures
        v@ == inicia_variantes(partida@),
{
    let vacia: Vec<MoveT> = Vec::new();
    assert(vista_linea(vacia@) =~= Seq::<JugadaV>::empty());
    let fens: Vec<String> = Vec::new();
    assert(vista_cadenas_fen(fens@) =~= Seq::<Seq<char>>::empty());
    let n = partida.arr_partida.len();
    let st = estado_variantes(1, n, false, 0, vacia, fens, 0, 0, 0, 1, 0);
    Validacion { partida, fase: Fase::Variantes(st) }
}

fn es_token_de_motor(st: &EstadoPrincipal, tok: &String) -> (b: bool)
    ensures
        b == token_de_motor(st@, tok@),
{
    st.num_parentesis == 0 && !empieza(tok, '$') && !empieza(tok, '{') && !es_caracter(tok, '(')
}

fn es_entrada_de_motor(st: &EstadoVariantes, e: &MoveT) -> (b: bool)
    ensures
        b == entrada_de_motor(st@, e@),
{
    !es_caracter(&e.san, '(') && st.parentesis == 0 && !es_caracter(&e.san, ')')
}

/// One step of the reading of the main line.
fn linea_principal(partida: PartiT, st: EstadoPrincipal, r: RespuestaMotor) -> (v: Validacion)
    requires
        bien_formada(ValidacionV { partida: partida@, fase: FaseV::Principal(st@) }),
        paso_definido(ValidacionV { partida: partida@, fase: FaseV::Principal(st@) }, r@),
    ensures
        v@ == avanza_spec(ValidacionV { partida: partida@, fase: FaseV::Principal(st@) }, r@),
{
    if st.parada || st.index >= partida.movims.len() {
        return inicia_variantes_exec(partida);
    }
    let motor = es_token_de_motor(&st, &partida.movims[st.index]);
    if motor {
        match r {
            RespuestaMotor::Jugada(j) => principal_con_motor(partida, st, j),
            _ => principal_con_motor(partida, st, None),
        }
    } else {
        principal_sin_motor(partida, st)
    }
}

/// One step of the reading of the variations.
fn linea_variantes(partida: PartiT, st: EstadoVariantes, r: RespuestaMotor) -> (v: Validacion)
    requires
        bien_formada(ValidacionV { partida: partida@, fase: FaseV::Variantes(st@) }),
        paso_definido(ValidacionV { partida: partida@, fase: FaseV::Variantes(st@) }, r@),
    ensures
        v@ == paso_variantes(partida@, st@, r@),
{
    let ghost p0 = partida@;
    let ghost s0 = st@;
    if !st.en_linea {
        if st.idx_par >= st.long_parti {
            return termina_exec(partida, true);
        }
        match r {
            RespuestaMotor::FenValida(true) => {
                let ip = st.idx_par;
                assert(p0.arr_partida[ip as int].len() > 0);
                let n_linea = partida.arr_partida[ip].len();
                let num = match lee_i16(&caracteres(partida.arr_partida[ip][0].num_jug.as_str())) {
                    Some(x) => x,
                    None => {
                        assert(false);
                        0
                    },
                };
                let EstadoVariantes { idx_par, long_parti, .. } = st;
                let vacia: Vec<MoveT> = Vec::new();
                assert(vista_linea(vacia@) =~= Seq::<JugadaV>::empty());
                let fens: Vec<String> = Vec::new();
                assert(vista_cadenas_fen(fens@) =~= Seq::<Seq<char>>::empty());
                let st1 = estado_variantes(idx_par, long_parti, true, 0, vacia, fens, num, 0, 0, 1, n_linea - 1);
                Validacion { partida, fase: Fase::Variantes(st1) }
            },
            _ => termina_exec(partida, false),
        }
    } else if st.idx_var > st.long_var {
        let EstadoVariantes {
            idx_par,
            long_parti,
            en_linea,
            parentesis,
            arr_var,
            arr_fen,
            num_jugada,
            profundidad,
            pos_ini,
            idx_var,
            long_var,
        } = st;
        let st1 = estado_variantes(
            idx_par + 1,
            long_parti,
            false,
            parentesis,
            arr_var,
            arr_fen,
            num_jugada,
            profundidad,
            pos_ini,
            idx_var,
            long_var,
        );
        Validacion { partida, fase: Fase::Variantes(st1) }
    } else {
        assert(st.idx_par < partida.arr_partida@.len());
        assert(partida.arr_partida@[st.idx_par as int]@.len() == p0.arr_partida[st.idx_par as int].len());
        let motor = es_entrada_de_motor(&st, &partida.arr_partida[st.idx_par][st.idx_var]);
        if motor {
            match r {
                RespuestaMotor::Jugada(j) => variante_con_motor(partida, st, j),
                _ => variante_con_motor(partida, st, None),
            }
        } else {
            variante_sin_motor(partida, st)
        }
    }
}

// ---------------------------------------------------------------------------
// The invariant is kept
// ---------------------------------------------------------------------------

proof fn lema_cambia_conserva(a: Seq<Seq<JugadaV>>, i: int, j: int, m: JugadaV)
    requires
        lineas_no_vacias(a),
        0 <= i < a.len(),
        0 <= j < a[i].len(),
    ensures
        lineas_no_vacias(cambia_jugada(a, i, j, m)),
        cambia_jugada(a, i, j, m).len() == a.len(),
        forall|k: int| 0 <= k < a.len() ==> (#[trigger] cambia_jugada(a, i, j, m)[k]).len() == a[k].len(),
{
    let b = cambia_jugada(a, i, j, m);
    assert forall|k: int| 0 <= k < b.len() implies (#[trigger] b[k]).len() > 0 by {
        if k != i {
            assert(b[k] == a[k]);
        }
    }
}

proof fn lema_termina(p: PartiTV, valida: bool)
    requires
        p.cabecera.len() > 10,
        lineas_no_vacias(p.arr_partida),
    ensures
        bien_formada(termina(p, valida)),
{
    if !valida {
        let f = partida_fallida(p);
        assert forall|k: int| 0 <= k < f.arr_partida.len() implies (#[trigger] f.arr_partida[k]).len() > 0 by {
            assert(k == 0);
        }
    }
}

/// Every step of the validation keeps its invariant: the header keeps its
/// eleven fields, no line is ever empty, and the state points into the game.
pub proof fn ley_validacion_conserva_invariante(v: ValidacionV, r: RespuestaV)
    requires
        bien_formada(v),
        paso_definido(v, r),
    ensures
        bien_formada(avanza_spec(v, r)),
{
    let p = v.partida;
    let a = p.arr_partida;
    match v.fase {
        FaseV::FenPrincipal(n) => {
            match r {
                RespuestaV::FenValida(true) => {
                    let w = inicia_principal(p, n);
                    let a1 = w.partida.arr_partida;
                    assert forall|k: int| 0 <= k < a1.len() implies (#[trigger] a1[k]).len() > 0 by {
                        if k < a.len() {
                            assert(a1[k] == a[k]);
                        }
                    }
                },
                _ => lema_termina(p, false),
            }
        },
        FaseV::Principal(st) => {
            if principal_acabada(p, st) {
            } else if token_de_motor(st, p.movims[st.index as int]) {
                let n = st.nivel as int;
                assert forall|k: int| 0 <= k < a.len() implies (#[trigger] a.update(n, a[n].push(arbitrary()))[k]).len() > 0 by {
                    if k != n {
                        assert(a.update(n, a[n].push(arbitrary()))[k] == a[k]);
                    }
                }
                let w = avanza_spec(v, r);
                let a1 = w.partida.arr_partida;
                assert forall|k: int| 0 <= k < a1.len() implies (#[trigger] a1[k]).len() > 0 by {
                    if k != n {
                        assert(a1[k] == a[k]);
                    }
                }
            } else {
                let tok = p.movims[st.index as int];
                let n = st.nivel as int;
                let ult = a[n].len() - 1;
                lema_cambia_conserva(a, n, ult, JugadaV { nag: tok, ..a[n][ult] });
                lema_cambia_conserva(a, n, ult, JugadaV { comen: tok, ..a[n][ult] });
                if !(st.num_parentesis == 0 && (empieza_con(tok, '$') || empieza_con(tok, '{'))) {
                    let np1 = if tok == seq!['('] { st.num_parentesis + 1 } else { st.num_parentesis };
                    let jug = jugada_de_variante(p, st, tok, np1 == 1 && tok == seq!['(']);
                    let av = st.arr_var;
                    let av1 = if tok[0] != '$' && tok[0] != '{' {
                        av.push(jug)
                    } else if tok[0] == '$' {
                        av.update(av.len() - 1, JugadaV { nag: tok, ..av[av.len() - 1] })
                    } else {
                        av.update(av.len() - 1, JugadaV { comen: tok, ..av[av.len() - 1] })
                    };
                    assert(av1.len() > 0);
                    let a1 = a.push(av1);
                    assert(lineas_no_vacias(a1)) by {
                        assert forall|k: int| 0 <= k < a1.len() implies (#[trigger] a1[k]).len() > 0 by {
                            if k < a.len() {
                                assert(a1[k] == a[k]);
                            }
                        }
                    }
                    let l1 = a1[n].len() - 1;
                    lema_cambia_conserva(a1, n, l1, JugadaV { sub_var: a1[n][l1].sub_var.push((a1.len() - 1) as usize), ..a1[n][l1] });
                }
            }
        },
        FaseV::Variantes(st) => {
            let ip = st.idx_par as int;
            let iv = st.idx_var as int;
            if !st.en_linea {
                if st.idx_par >= st.long_parti {
                    lema_termina(p, true);
                } else {
                    lema_termina(p, false);
                }
            } else if linea_acabada(st) {
            } else if entrada_de_motor(st, a[ip][iv]) {
                lema_termina(p, false);
                match r {
                    RespuestaV::Jugada(Some(j)) => {
                        let e = a[ip][iv];
                        let turno = if j.turno == seq!['w'] { seq!['b'] } else { seq!['w'] };
                        let nj = st.num_jugada + 1;
                        let e1 = JugadaV {
                            uci: j.uci,
                            fen: j.fen,
                            turno: turno,
                            num_jug: dec_i(nj),
                            idx_jug: indice_spec(dec_u(st.idx_par), dec_i(nj)),
                            ..e
                        };
                        lema_cambia_conserva(a, ip, iv, e1);
                    },
                    _ => {},
                }
            } else {
                let e = a[ip][iv];
                let par1 = if e.san == seq!['('] { st.parentesis + 1 } else { st.parentesis };
                if e.san == seq!['('] && par1 == 1 {
                } else if par1 > 0 {
                    let av1 = st.arr_var.push(JugadaV { profundidad: dec_i(st.profundidad), ..e });
                    if e.san == seq![')'] && par1 - 1 == 0 {
                        let a1 = a.push(av1);
                        let l = a1[ip];
                        let pi = st.pos_ini as int;
                        let l1 = l.subrange(0, pi) + l.subrange(iv + 1, l.len() as int);
                        let l2 = l1.update(pi - 1, JugadaV { sub_var: l1[pi - 1].sub_var.push(st.long_parti as usize), ..l1[pi - 1] });
                        let a2 = a1.update(ip, l2);
                        assert(l2.len() > 0);
                        assert forall|k: int| 0 <= k < a2.len() implies (#[trigger] a2[k]).len() > 0 by {
                            if k != ip && k < a.len() {
                                assert(a2[k] == a[k]);
                            }
                            if k == a.len() {
                                assert(a2[k] == av1);
                            }
                        }
                    }
                } else {
                    let nj = st.num_jugada + 1;
                    let e1 = JugadaV { idx_jug: indice_spec(dec_u(st.idx_par), dec_i(nj)), num_jug: dec_i(nj), ..e };
                    lema_cambia_conserva(a, ip, iv, e1);
                }
            }
        },
        FaseV::Hecha => {},
    }
}

// ---------------------------------------------------------------------------
// The validation, step by step
// ---------------------------------------------------------------------------

/// The next step reads an entry that exists (it does not when a
/// removed sub-variation leaves a variation shorter than it was).
pub open spec fn lectura_posible(v: ValidacionV) -> bool {
    match v.fase {
        FaseV::Variantes(st) => st.en_linea && !linea_acabada(st) ==> st.idx_var < v.partida.arr_partida[st.idx_par as int].len(),
        _ => true,
    }
}

impl Validacion {
    /// Starts the validation of the lines of a game: its main line will be
    /// line `0`.
    pub fn nueva(partida: PartiT) -> (v: Validacion)
        requires
            partida@.cabecera.len() > 10,
            lineas_no_vacias(partida@.arr_partida),
        ensures
            v@ == (ValidacionV { partida: partida@, fase: FaseV::FenPrincipal(0) }),
            bien_formada(v@),
    {
        Validacion { partida, fase: Fase::FenPrincipal(0) }
    }

    /// The game as it stands.
    pub fn partida(&self) -> (p: &PartiT)
        ensures
            p@ == self@.partida,
    {
        &self.partida
    }

    /// The validation is over.
    pub fn terminada(&self) -> (b: bool)
        ensures
            b == (self@.fase is Hecha),
    {
        match self.fase {
            Fase::Hecha => true,
            _ => false,
        }
    }

    /// The game, once the validation is over.
    pub fn resultado(self) -> (p: PartiT)
        ensures
            p@ == self@.partida,
    {
        self.partida
    }

    pub fn lectura_posible(&self) -> (b: bool)
        requires
            bien_formada(self@),
        ensures
            b == lectura_posible(self@),
    {
        match &self.fase {
            Fase::Variantes(st) => {
                if st.en_linea && !(st.idx_var > st.long_var) {
                    assert(st.idx_par < self.partida.arr_partida@.len());
                    assert(self.partida.arr_partida@[st.idx_par as int]@.len() == self@.partida.arr_partida[st.idx_par as int].len());
                    st.idx_var < self.partida.arr_partida[st.idx_par].len()
                } else {
                    true
                }
            },
            _ => true,
        }
    }

    /// What the engine must do next.
    pub fn peticion(&self) -> (q: PeticionMotor)
        requires
            bien_formada(self@),
            lectura_posible(self@),
        ensures
            q@ == peticion_spec(self@),
    {
        let ghost v = self@;
        match &self.fase {
            Fase::FenPrincipal(_) => PeticionMotor::FijaFen(self.partida.cabecera[10].clone()),
            Fase::Principal(st) => {
                if !(st.parada || st.index >= self.partida.movims.len()) && es_token_de_motor(
                    st,
                    &self.partida.movims[st.index],
                ) {
                    PeticionMotor::Mueve(self.partida.movims[st.index].clone())
                } else {
                    PeticionMotor::Ninguna
                }
            },
            Fase::Variantes(st) => {
                if !st.en_linea {
                    if st.idx_par >= st.long_parti {
                        PeticionMotor::Ninguna
                    } else {
                        assert(st.idx_par < self.partida.arr_partida@.len());
                        assert(v.partida.arr_partida[st.idx_par as int].len() > 0);
                        assert(self.partida.arr_partida@[st.idx_par as int]@.len() == v.partida.arr_partida[st.idx_par as int].len());
                        PeticionMotor::FijaFen(self.partida.arr_partida[st.idx_par][0].fen.clone())
                    }
                } else if !(st.idx_var > st.long_var) {
                    assert(st.idx_par < self.partida.arr_partida@.len());
                    assert(self.partida.arr_partida@[st.idx_par as int]@.len() == v.partida.arr_partida[st.idx_par as int].len());
                    let e = &self.partida.arr_partida[st.idx_par][st.idx_var];
                    if es_entrada_de_motor(st, e) {
                        PeticionMotor::Mueve(e.san.clone())
                    } else {
                        PeticionMotor::Ninguna
                    }
                } else {
                    PeticionMotor::Ninguna
                }
            },
            Fase::Hecha => PeticionMotor::Terminada,
        }
    }

    /// The answer `r` fits the request, and the next step can be read
    /// with it without failing.
    pub fn admite(&self, r: &RespuestaMotor) -> (b: bool)
        requires
            bien_formada(self@),
        ensures
            b == paso_definido(self@, r@),
    {
        let ghost v = self@;
        if !self.lectura_posible() {
            return false;
        }
        let q = self.peticion();
        let acorde = match (&q, r) {
            (PeticionMotor::FijaFen(_), RespuestaMotor::FenValida(_)) => true,
            (PeticionMotor::Mueve(_), RespuestaMotor::Jugada(_)) => true,
            (PeticionMotor::Ninguna, RespuestaMotor::Nada) => true,
            (PeticionMotor::Terminada, RespuestaMotor::Nada) => true,
            _ => false,
        };
        if !acorde {
            return false;
        }
        match &self.fase {
            Fase::Principal(st) => {
                if st.parada || st.index >= self.partida.movims.len() {
                    return true;
                }
                let tok = &self.partida.movims[st.index];
                let ps = palabras(&caracteres(st.fen.as_str()));
                assert(vistas(ps@).len() == ps@.len());
                if ps.len() < 2 {
                    return false;
                }
                admite_principal(st, tok, r)
            },
            Fase::Variantes(st) => admite_variantes(&self.partida, st, r),
            _ => true,
        }
    }

    /// One step: the engine answered `r` to the request (`linea_principal`
    /// and `linea_variantes` read the main line and the variations).
    pub fn avanza(self, r: RespuestaMotor) -> (v: Validacion)
        requires
            bien_formada(self@),
            paso_definido(self@, r@),
        ensures
            v@ == avanza_spec(self@, r@),
            bien_formada(v@),
    {
        let ghost v0 = self@;
        proof {
            ley_validacion_conserva_invariante(v0, r@);
        }
        let Validacion { partida, fase } = self;
        match fase {
            Fase::FenPrincipal(n) => match r {
                RespuestaMotor::FenValida(true) => inicia_principal_exec(partida, n),
                _ => termina_exec(partida, false),
            },
            Fase::Principal(st) => linea_principal(partida, st, r),
            Fase::Variantes(st) => linea_variantes(partida, st, r),
            Fase::Hecha => Validacion { partida, fase: Fase::Hecha },
        }
    }
}

fn admite_principal(st: &EstadoPrincipal, tok: &String, r: &RespuestaMotor) -> (b: bool)
    requires
        palabras_spec(st.fen@).len() >= 2,
    ensures
        b == ({
            let np1 = if tok@ == seq!['('] { st@.num_parentesis + 1 } else { st@.num_parentesis };
            if token_de_motor(st@, tok@) {
                match r@ {
                    RespuestaV::Jugada(Some(j)) => (if st@.num_jugada == 0 && j.turno == seq!['b'] {
                        1int
                    } else {
                        st@.num_jugada
                    }) < i16::MAX,
                    _ => st@.num_jugada < i16::MAX,
                }
            } else if st@.num_parentesis == 0 && (empieza_con(tok@, '$') || empieza_con(tok@, '{')) {
                true
            } else {
                &&& (tok@ == seq!['('] ==> st@.num_parentesis < i16::MAX)
                &&& tok@.len() > 0
                &&& (np1 == 1 && tok@ == seq!['('] ==> st@.arr_fen.len() >= 2)
                &&& st@.num_jugada < i16::MAX
                &&& (tok@.len() > 0 && (tok@[0] == '$' || tok@[0] == '{') ==> st@.arr_var.len() > 0)
            }
        }),
{
    if es_token_de_motor(st, tok) {
        match r {
            RespuestaMotor::Jugada(Some(j)) => {
                let nj1: i32 = if st.num_jugada == 0 && es_caracter(&j.turno, 'b') {
                    1
                } else {
                    st.num_jugada as i32
                };
                nj1 < 32767
            },
            _ => st.num_jugada < 32767,
        }
    } else if st.num_parentesis == 0 && (empieza(tok, '$') || empieza(tok, '{')) {
        true
    } else {
        let abre = es_caracter(tok, '(');
        let np1: i32 = if abre {
            st.num_parentesis as i32 + 1
        } else {
            st.num_parentesis as i32
        };
        let tc = caracteres(tok.as_str());
        (!abre || st.num_parentesis < 32767) && tc.len() > 0 && (!(np1 == 1 && abre)
            || st.arr_fen.len() >= 2) && st.num_jugada < 32767 && (!(tc.len() > 0 && (tc[0]
            == '$' || tc[0] == '{')) || st.arr_var.len() > 0)
    }
}

fn admite_variantes(partida: &PartiT, st: &EstadoVariantes, r: &RespuestaMotor) -> (b: bool)
    requires
        bien_formada(ValidacionV { partida: partida@, fase: FaseV::Variantes(st@) }),
    ensures
        b == paso_variantes_definido(partida@, st@, r@),
{
    let ghost p0 = partida@;
    if !st.en_linea {
        if st.idx_par >= st.long_parti {
            return true;
        }
        assert(st.idx_par < partida.arr_partida@.len());
        assert(p0.arr_partida[st.idx_par as int].len() > 0);
        assert(partida.arr_partida@[st.idx_par as int]@.len() == p0.arr_partida[st.idx_par as int].len());
        return lee_i16(&caracteres(partida.arr_partida[st.idx_par][0].num_jug.as_str())).is_some();
    }
    if st.idx_var > st.long_var {
        return true;
    }
    assert(st.idx_par < partida.arr_partida@.len());
    assert(partida.arr_partida@[st.idx_par as int]@.len() == p0.arr_partida[st.idx_par as int].len());
    if !(st.idx_var < partida.arr_partida[st.idx_par].len()) {
        return false;
    }
    let e = &partida.arr_partida[st.idx_par][st.idx_var];
    let abre = es_caracter(&e.san, '(');
    let par1: i32 = if abre {
        st.parentesis as i32 + 1
    } else {
        st.parentesis as i32
    };
    if es_entrada_de_motor(st, e) {
        match r {
            RespuestaMotor::Jugada(Some(_)) => st.num_jugada < 32767,
            _ => true,
        }
    } else {
        if abre && st.parentesis >= 32767 {
            return false;
        }
        if abre && par1 == 1 {
            assert(p0.arr_partida[st.idx_par as int].len() > 0);
            match lee_i16(&caracteres(partida.arr_partida[st.idx_par][0].profundidad.as_str())) {
                Some(x) => {
                    if !(x < 32767 && st.arr_fen.len() >= 2) {
                        return false;
                    }
                },
                None => {
                    return false;
                },
            }
        }
        !(par1 == 0) || st.num_jugada < 32767
    }
}

/// The validation that the moves `jugadas` from the position `fen` start:
/// the game read from its two lines, its main line still to be read.
pub open spec fn validacion_de_jugadas(jugadas: Seq<char>, fen: Seq<char>) -> ValidacionV {
    ValidacionV {
        partida: con_tokens(con_cabecera(partida_vacia(), lineas_partida(jugadas, fen))),
        fase: FaseV::FenPrincipal(0),
    }
}

/// Reads the moves `jugadas` from the position `fen` into a game and starts
/// its validation against the chess engine; nothing when a header line does
/// not match the header pattern.
pub fn procesa_jugadas(jugadas: String, fen: String) -> (r: Option<Validacion>)
    ensures
        r is Some <==> cabeceras_casan(lineas_partida(jugadas@, fen@)),
        r matches Some(v) ==> v@ == validacion_de_jugadas(jugadas@, fen@) && bien_formada(v@),
{
    match prepara_partida(&jugadas, &fen) {
        None => None,
        Some(p) => {
            assert(p@.cabecera.len() == 11);
            assert(lineas_no_vacias(p@.arr_partida));
            Some(Validacion::nueva(p))
        },
    }
}

} // verus!
