use vstd::prelude::*;
use crate::parser::{JugadaV, PartiTV, con_tokens, con_cabecera, partida_vacia, lineas_partida, cabeceras_casan};
use crate::texto::empieza_con;
use crate::numeros::{lee_i16_spec, ley_lee_i16_decimal, decimal_con_signo};
use crate::validacion::{
    FaseV, RespuestaV, ValidacionV, VariantesV, PrincipalV, RespuestaJugadaV, avanza_spec, bien_formada, entrada_de_motor,
    inicia_variantes, ley_validacion_conserva_invariante, lineas_no_vacias, principal_acabada, token_de_motor,
    jugada_de_variante, dec_i, dec_u, jugada_inicial, validacion_de_jugadas, linea_acabada, paso_definido,
};

verus! {

// ---------------------------------------------------------------------------
// Runs of the validation
// ---------------------------------------------------------------------------

/// The validation after the engine gave the answers `rs`, one per step.
pub open spec fn recorre(v: ValidacionV, rs: Seq<RespuestaV>) -> ValidacionV
    decreases rs.len(),
{
    if rs.len() == 0 {
        v
    } else {
        recorre(avanza_spec(v, rs[0]), rs.drop_first())
    }
}

/// Every step of the run can be taken.
pub open spec fn recorrido_definido(v: ValidacionV, rs: Seq<RespuestaV>) -> bool
    decreases rs.len(),
{
    rs.len() == 0 || (paso_definido(v, rs[0]) && recorrido_definido(avanza_spec(v, rs[0]), rs.drop_first()))
}

/// The step ends the validation with a failure: the engine refused the
/// position of a line or one of its moves.
pub open spec fn paso_fallido(v: ValidacionV, r: RespuestaV) -> bool {
    match v.fase {
        FaseV::FenPrincipal(_) => !(r matches RespuestaV::FenValida(true)),
        FaseV::Variantes(st) => if !st.en_linea {
            st.idx_par < st.long_parti && !(r matches RespuestaV::FenValida(true))
        } else {
            &&& !linea_acabada(st)
            &&& entrada_de_motor(st, v.partida.arr_partida[st.idx_par as int][st.idx_var as int])
            &&& !(r matches RespuestaV::Jugada(Some(_)))
        },
        _ => false,
    }
}

/// No step of the run fails.
pub open spec fn sin_fallos(v: ValidacionV, rs: Seq<RespuestaV>) -> bool
    decreases rs.len(),
{
    rs.len() == 0 || (!paso_fallido(v, rs[0]) && sin_fallos(avanza_spec(v, rs[0]), rs.drop_first()))
}

// ---------------------------------------------------------------------------
// Parentheses of a line
// ---------------------------------------------------------------------------

/// The moves of a line, by their text.
pub open spec fn sanes(l: Seq<JugadaV>) -> Seq<Seq<char>> {
    l.map_values(|e: JugadaV| e.san)
}

pub open spec fn abre(s: Seq<char>) -> bool {
    s == seq!['(']
}

pub open spec fn cierra(s: Seq<char>) -> bool {
    s == seq![')']
}

/// How many of the texts open a parenthesis.
pub open spec fn aperturas(s: Seq<Seq<char>>) -> nat
    decreases s.len(),
{
    if s.len() == 0 {
        0
    } else {
        aperturas(s.drop_last()) + if abre(s.last()) {
            1nat
        } else {
            0nat
        }
    }
}

/// The parentheses the texts open less those they close.
pub open spec fn nivel(s: Seq<Seq<char>>) -> int
    decreases s.len(),
{
    if s.len() == 0 {
        0
    } else {
        nivel(s.drop_last()) + if abre(s.last()) {
            1int
        } else if cierra(s.last()) {
            -1int
        } else {
            0int
        }
    }
}

/// A group: it opens with `(`, its parentheses balance, and none of them
/// closes the first before its end.
pub open spec fn grupo(s: Seq<Seq<char>>) -> bool {
    &&& s.len() >= 2
    &&& abre(s[0])
    &&& nivel(s) == 0
    &&& forall|j: int| 1 <= j < s.len() ==> nivel(#[trigger] s.take(j)) >= 1
}

/// A flat group: `(`, moves with no parenthesis, and `)`.
pub open spec fn grupo_llano(s: Seq<Seq<char>>) -> bool {
    &&& s.len() >= 2
    &&& abre(s[0])
    &&& cierra(s.last())
    &&& forall|j: int| 0 < j < s.len() - 1 ==> !abre(#[trigger] s[j]) && !cierra(s[j])
}

/// The sub-variations that a line still holds after its first entry.
pub open spec fn pendientes(l: Seq<JugadaV>) -> nat {
    aperturas(sanes(l).drop_first())
}

/// The sub-variations that lines `k` and after still hold.
pub open spec fn suma_pendientes(a: Seq<Seq<JugadaV>>, k: int) -> nat
    decreases a.len() - k,
{
    if k < 0 || k >= a.len() {
        0
    } else {
        pendientes(a[k]) + suma_pendientes(a, k + 1)
    }
}

proof fn lema_aperturas_suma(x: Seq<Seq<char>>, y: Seq<Seq<char>>)
    ensures
        aperturas(x + y) == aperturas(x) + aperturas(y),
    decreases y.len(),
{
    if y.len() > 0 {
        lema_aperturas_suma(x, y.drop_last());
        assert((x + y).drop_last() =~= x + y.drop_last());
    } else {
        assert(x + y =~= x);
    }
}

proof fn lema_nivel_suma(x: Seq<Seq<char>>, y: Seq<Seq<char>>)
    ensures
        nivel(x + y) == nivel(x) + nivel(y),
    decreases y.len(),
{
    if y.len() > 0 {
        lema_nivel_suma(x, y.drop_last());
        assert((x + y).drop_last() =~= x + y.drop_last());
    } else {
        assert(x + y =~= x);
    }
}

proof fn lema_nivel_paso(s: Seq<Seq<char>>, j: int)
    requires
        0 <= j < s.len(),
    ensures
        nivel(s.take(j + 1)) == nivel(s.take(j)) + if abre(s[j]) {
            1int
        } else if cierra(s[j]) {
            -1int
        } else {
            0int
        },
        aperturas(s.subrange(j, s.len() as int)) == aperturas(s.subrange(j + 1, s.len() as int)) + if abre(s[j]) {
            1nat
        } else {
            0nat
        },
{
    assert(s.take(j + 1).drop_last() =~= s.take(j));
    lema_aperturas_suma(seq![s[j]], s.subrange(j + 1, s.len() as int));
    assert(seq![s[j]] + s.subrange(j + 1, s.len() as int) =~= s.subrange(j, s.len() as int));
    let u = seq![s[j]];
    assert(u.drop_last() =~= Seq::<Seq<char>>::empty());
    assert(u.last() == s[j]);
    assert(aperturas(u.drop_last()) == 0);
    assert(aperturas(u) == if abre(s[j]) { 1nat } else { 0nat });
}

/// A line that opens with `(` and has no parenthesis from `1` to `q` is one
/// level deep at `q`.
proof fn lema_nivel_llano(s: Seq<Seq<char>>, q: int)
    requires
        1 <= q <= s.len(),
        abre(s[0]),
        forall|j: int| 1 <= j < q ==> !abre(#[trigger] s[j]) && !cierra(s[j]),
    ensures
        nivel(s.take(q)) == 1,
    decreases q,
{
    if q == 1 {
        lema_nivel_paso(s, 0);
        assert(s.take(0) =~= Seq::<Seq<char>>::empty());
    } else {
        lema_nivel_llano(s, q - 1);
        lema_nivel_paso(s, q - 1);
    }
}

proof fn lema_suma_cambia(a: Seq<Seq<JugadaV>>, k: int, i: int, x: Seq<JugadaV>)
    requires
        0 <= i < k,
        i < a.len(),
    ensures
        suma_pendientes(a.update(i, x), k) == suma_pendientes(a, k),
    decreases a.len() - k,
{
    if k < a.len() {
        lema_suma_cambia(a, k + 1, i, x);
    }
}

proof fn lema_suma_empuja(a: Seq<Seq<JugadaV>>, k: int, y: Seq<JugadaV>)
    requires
        0 <= k <= a.len(),
    ensures
        suma_pendientes(a.push(y), k) == suma_pendientes(a, k) + pendientes(y),
    decreases a.len() - k,
{
    if k < a.len() {
        lema_suma_empuja(a, k + 1, y);
        assert(a.push(y)[k] == a[k]);
    } else {
        assert(a.push(y)[k] == y);
        assert(suma_pendientes(a.push(y), k + 1) == 0);
    }
}

// ---------------------------------------------------------------------------
// The reading of the variations
// ---------------------------------------------------------------------------

/// Where the part of the line being read that still holds sub-variations
/// starts: the open sub-variation, or else the next entry.
pub open spec fn inicio_pendiente(st: VariantesV) -> int {
    if st.parentesis > 0 {
        st.pos_ini as int
    } else {
        st.idx_var as int
    }
}

/// The line being read: a group read up to `idx_var`, flat before the part
/// that still holds sub-variations, with the open sub-variation, if any, in
/// `arr_var`.
pub open spec fn linea_en_curso(l: Seq<JugadaV>, st: VariantesV) -> bool {
    let s = sanes(l);
    &&& grupo(s)
    &&& 1 <= st.idx_var < s.len()
    &&& s.len() - 1 <= st.long_var
    &&& st.parentesis >= 0
    &&& nivel(s.take(st.idx_var as int)) == 1 + st.parentesis
    &&& forall|j: int| 1 <= j < inicio_pendiente(st) ==> !abre(#[trigger] s[j]) && !cierra(s[j])
    &&& (st.parentesis == 0 ==> st.arr_var.len() == 0)
    &&& (st.parentesis > 0 ==> {
        &&& 1 <= st.pos_ini < st.idx_var
        &&& abre(s[st.pos_ini as int])
        &&& sanes(st.arr_var) == s.subrange(st.pos_ini as int, st.idx_var as int)
        &&& forall|m: int| st.pos_ini < m <= st.idx_var ==> nivel(#[trigger] s.take(m)) >= 2
    })
}

/// What holds at each step of the reading of the variations of a game whose
/// lines were `a0` when it started.
pub open spec fn inv_variantes(a0: Seq<Seq<JugadaV>>, v: ValidacionV) -> bool {
    let a = v.partida.arr_partida;
    let total = a0.len() + suma_pendientes(a0, 1);
    &&& a.len() >= 1
    &&& a[0] == a0[0]
    &&& match v.fase {
        FaseV::Variantes(st) => {
            let ip = st.idx_par as int;
            &&& bien_formada(v)
            &&& st.idx_par <= a.len()
            &&& forall|k: int| 1 <= k < ip && k < a.len() ==> grupo_llano(#[trigger] sanes(a[k]))
            &&& forall|k: int| ip < k < a.len() ==> grupo(#[trigger] sanes(a[k]))
            &&& if st.en_linea {
                &&& linea_en_curso(a[ip], st)
                &&& a.len() + aperturas(sanes(a[ip]).subrange(inicio_pendiente(st), a[ip].len() as int))
                    + suma_pendientes(a, ip + 1) == total
            } else {
                &&& (ip < a.len() ==> grupo(sanes(a[ip])))
                &&& a.len() + suma_pendientes(a, ip) == total
            }
        },
        FaseV::Hecha => {
            &&& a.len() == total
            &&& forall|k: int| 1 <= k < a.len() ==> grupo_llano(#[trigger] sanes(a[k]))
        },
        _ => false,
    }
}
proof fn lema_entre_lineas(a0: Seq<Seq<JugadaV>>, v: ValidacionV, st: VariantesV, r: RespuestaV)
    requires
        inv_variantes(a0, v),
        v.fase == FaseV::Variantes(st),
        paso_definido(v, r),
        !paso_fallido(v, r),
        !st.en_linea,
    ensures
        inv_variantes(a0, avanza_spec(v, r)),
{
    ley_validacion_conserva_invariante(v, r);
    let p = v.partida;
    let a = p.arr_partida;
    let ip = st.idx_par as int;
    if st.idx_par >= st.long_parti {
        assert(ip == a.len());
        assert(suma_pendientes(a, ip) == 0);
    } else {
        let w = avanza_spec(v, r);
        let st1 = crate::validacion::inicia_linea(p, st);
        assert(w.fase == FaseV::Variantes(st1));
        let s = sanes(a[ip]);
        lema_nivel_llano(s, 1);
        assert(s.drop_first() =~= s.subrange(1, a[ip].len() as int));
    }
}
proof fn lema_paso_motor(a0: Seq<Seq<JugadaV>>, v: ValidacionV, st: VariantesV, r: RespuestaV)
    requires
        inv_variantes(a0, v),
        v.fase == FaseV::Variantes(st),
        paso_definido(v, r),
        !paso_fallido(v, r),
        st.en_linea,
        !linea_acabada(st),
        entrada_de_motor(st, v.partida.arr_partida[st.idx_par as int][st.idx_var as int]),
    ensures
        inv_variantes(a0, avanza_spec(v, r)),
{
    ley_validacion_conserva_invariante(v, r);
    let p = v.partida;
    let a = p.arr_partida;
    let ip = st.idx_par as int;
    let iv = st.idx_var as int;
    let s = sanes(a[ip]);
    let e = a[ip][iv];
    assert(s[iv] == e.san);
    let w = avanza_spec(v, r);
    let j = r->Jugada_0->Some_0;
    assert(w == crate::validacion::paso_variante_con_motor(p, st, Some(j)));
    let a1 = w.partida.arr_partida;
    let st1 = w.fase->Variantes_0;
    assert(a1[ip].len() == a[ip].len());
    assert(sanes(a1[ip]) =~= s);
    lema_nivel_paso(s, iv);
    if iv + 1 == s.len() {
        assert(s.take(iv + 1) =~= s);
    }
    lema_suma_cambia(a, ip + 1, ip, a1[ip]);
    assert(a1 == a.update(ip, a1[ip]));
    assert forall|k: int| 0 <= k < a.len() && k != ip implies a1[k] == a[k] by {}
}

proof fn lema_fin_linea(a0: Seq<Seq<JugadaV>>, v: ValidacionV, st: VariantesV, r: RespuestaV)
    requires
        inv_variantes(a0, v),
        v.fase == FaseV::Variantes(st),
        paso_definido(v, r),
        !paso_fallido(v, r),
        st.en_linea,
        !linea_acabada(st),
        !entrada_de_motor(st, v.partida.arr_partida[st.idx_par as int][st.idx_var as int]),
        st.parentesis == 0,
        v.partida.arr_partida[st.idx_par as int][st.idx_var as int].san != seq!['('],
    ensures
        inv_variantes(a0, avanza_spec(v, r)),
{
    ley_validacion_conserva_invariante(v, r);
    let p = v.partida;
    let a = p.arr_partida;
    let ip = st.idx_par as int;
    let iv = st.idx_var as int;
    let s = sanes(a[ip]);
    let e = a[ip][iv];
    assert(s[iv] == e.san);
    let w = avanza_spec(v, r);
    let a1 = w.partida.arr_partida;
    assert(a1[ip].len() == a[ip].len());
    assert(sanes(a1[ip]) =~= s);
    lema_nivel_paso(s, iv);
    if iv + 1 < s.len() {
        assert(nivel(s.take(iv + 1)) >= 1);
    }
    assert(iv + 1 == s.len());
    assert(grupo_llano(s));
    lema_nivel_paso(s, iv);
    assert(s.subrange(iv + 1, s.len() as int) =~= Seq::<Seq<char>>::empty());
    lema_suma_cambia(a, ip + 1, ip, a1[ip]);
    assert(a1 == a.update(ip, a1[ip]));
    assert forall|k: int| 0 <= k < a.len() && k != ip implies a1[k] == a[k] by {}
}
proof fn lema_abre_sub(a0: Seq<Seq<JugadaV>>, v: ValidacionV, st: VariantesV, r: RespuestaV)
    requires
        inv_variantes(a0, v),
        v.fase == FaseV::Variantes(st),
        paso_definido(v, r),
        st.en_linea,
        !linea_acabada(st),
        st.parentesis == 0,
        v.partida.arr_partida[st.idx_par as int][st.idx_var as int].san == seq!['('],
    ensures
        inv_variantes(a0, avanza_spec(v, r)),
{
    ley_validacion_conserva_invariante(v, r);
    let p = v.partida;
    let a = p.arr_partida;
    let ip = st.idx_par as int;
    let iv = st.idx_var as int;
    let s = sanes(a[ip]);
    let e = a[ip][iv];
    assert(s[iv] == e.san);
    let w = avanza_spec(v, r);
    let st1 = w.fase->Variantes_0;
    assert(w.partida == p);
    assert(st1.pos_ini == iv && st1.idx_var == iv + 1 && st1.parentesis == 1);
    assert(sanes(st1.arr_var) =~= s.subrange(iv, iv + 1));
    lema_nivel_paso(s, iv);
    if iv + 1 == s.len() {
        assert(s.take(iv + 1) =~= s);
    }
    assert forall|m: int| st1.pos_ini < m <= st1.idx_var implies nivel(#[trigger] s.take(m)) >= 2 by {
        assert(m == iv + 1);
    }
}

proof fn lema_sigue_sub(a0: Seq<Seq<JugadaV>>, v: ValidacionV, st: VariantesV, r: RespuestaV)
    requires
        inv_variantes(a0, v),
        v.fase == FaseV::Variantes(st),
        paso_definido(v, r),
        st.en_linea,
        !linea_acabada(st),
        st.parentesis > 0,
        !(v.partida.arr_partida[st.idx_par as int][st.idx_var as int].san == seq![')'] && st.parentesis == 1),
    ensures
        inv_variantes(a0, avanza_spec(v, r)),
{
    ley_validacion_conserva_invariante(v, r);
    let p = v.partida;
    let a = p.arr_partida;
    let ip = st.idx_par as int;
    let iv = st.idx_var as int;
    let pi = st.pos_ini as int;
    let s = sanes(a[ip]);
    let e = a[ip][iv];
    assert(s[iv] == e.san);
    let w = avanza_spec(v, r);
    let st1 = w.fase->Variantes_0;
    assert(w.partida == p);
    assert(st1.pos_ini == pi && st1.idx_var == iv + 1);
    assert(st1.arr_var == st.arr_var.push(JugadaV { profundidad: crate::validacion::dec_i(st.profundidad), ..e }));
    assert(sanes(st1.arr_var) =~= sanes(st.arr_var).push(e.san));
    assert(s.subrange(pi, iv + 1) =~= s.subrange(pi, iv).push(s[iv]));
    lema_nivel_paso(s, iv);
    assert(nivel(s.take(iv + 1)) == 1 + st1.parentesis);
    assert(st1.parentesis >= 1);
    if iv + 1 == s.len() {
        assert(s.take(iv + 1) =~= s);
    }
    assert forall|m: int| st1.pos_ini < m <= st1.idx_var implies nivel(#[trigger] s.take(m)) >= 2 by {
        if m < iv + 1 {
        }
    }
}/// Taking a sub-group out of a group leaves a group.
proof fn lema_quita_grupo(s: Seq<Seq<char>>, pi: int, iv: int)
    requires
        grupo(s),
        1 <= pi < iv,
        iv + 1 < s.len(),
        nivel(s.take(pi)) == 1,
        nivel(s.take(iv + 1)) == 1,
    ensures
        grupo(s.subrange(0, pi) + s.subrange(iv + 1, s.len() as int)),
{
    let n = s.len() as int;
    let s2 = s.subrange(0, pi) + s.subrange(iv + 1, n);
    assert(s.take(iv + 1) + s.subrange(iv + 1, n) =~= s);
    lema_nivel_suma(s.take(iv + 1), s.subrange(iv + 1, n));
    assert(s.take(pi) =~= s.subrange(0, pi));
    lema_nivel_suma(s.subrange(0, pi), s.subrange(iv + 1, n));
    assert(nivel(s2) == 0);
    assert forall|j: int| 1 <= j < s2.len() implies nivel(#[trigger] s2.take(j)) >= 1 by {
        if j <= pi {
            assert(s2.take(j) =~= s.take(j));
        } else {
            let m = iv + 1 + j - pi;
            assert(s2.take(j) =~= s.subrange(0, pi) + s.subrange(iv + 1, m));
            lema_nivel_suma(s.subrange(0, pi), s.subrange(iv + 1, m));
            assert(s.take(m) =~= s.take(iv + 1) + s.subrange(iv + 1, m));
            lema_nivel_suma(s.take(iv + 1), s.subrange(iv + 1, m));
            assert(nivel(s.take(m)) >= 1);
        }
    }
    assert(s2[0] == s[0]);
}

/// The sub-group taken out is a group, and the openings are shared between
/// it and the rest.
proof fn lema_subgrupo(s: Seq<Seq<char>>, pi: int, iv: int)
    requires
        1 <= pi < iv,
        iv + 1 < s.len(),
        abre(s[pi]),
        nivel(s.take(pi)) == 1,
        nivel(s.take(iv + 1)) == 1,
        forall|m: int| pi < m <= iv ==> nivel(#[trigger] s.take(m)) >= 2,
    ensures
        grupo(s.subrange(pi, iv + 1)),
        aperturas(s.subrange(pi, s.len() as int)) == 1 + aperturas(s.subrange(pi + 1, iv + 1)) + aperturas(
            s.subrange(iv + 1, s.len() as int),
        ),
{
    let n = s.len() as int;
    let t = s.subrange(pi, iv + 1);
    assert(s.take(iv + 1) =~= s.take(pi) + t);
    lema_nivel_suma(s.take(pi), t);
    assert forall|j: int| 1 <= j < t.len() implies nivel(#[trigger] t.take(j)) >= 1 by {
        assert(s.take(pi + j) =~= s.take(pi) + t.take(j));
        lema_nivel_suma(s.take(pi), t.take(j));
        assert(nivel(s.take(pi + j)) >= 2);
    }
    assert(t[0] == s[pi]);
    assert(s.subrange(pi, n) =~= t + s.subrange(iv + 1, n));
    lema_aperturas_suma(t, s.subrange(iv + 1, n));
    lema_nivel_paso(t, 0);
    assert(t.subrange(0, t.len() as int) =~= t);
    assert(t.subrange(1, t.len() as int) =~= s.subrange(pi + 1, iv + 1));
}

#[verifier::rlimit(30)]
proof fn lema_cierra_sub(a0: Seq<Seq<JugadaV>>, v: ValidacionV, st: VariantesV, r: RespuestaV)
    requires
        inv_variantes(a0, v),
        v.fase == FaseV::Variantes(st),
        paso_definido(v, r),
        st.en_linea,
        !linea_acabada(st),
        st.parentesis == 1,
        v.partida.arr_partida[st.idx_par as int][st.idx_var as int].san == seq![')'],
    ensures
        inv_variantes(a0, avanza_spec(v, r)),
{
    ley_validacion_conserva_invariante(v, r);
    let p = v.partida;
    let a = p.arr_partida;
    let ip = st.idx_par as int;
    let iv = st.idx_var as int;
    let pi = st.pos_ini as int;
    let s = sanes(a[ip]);
    let n = s.len() as int;
    let e = a[ip][iv];
    assert(s[iv] == e.san);
    let w = avanza_spec(v, r);
    let st1 = w.fase->Variantes_0;
    let a2 = w.partida.arr_partida;
    let nueva = st.arr_var.push(JugadaV { profundidad: crate::validacion::dec_i(st.profundidad), ..e });
    let a1 = a.push(nueva);
    let l = a1[ip];
    assert(l == a[ip]);
    let l1 = l.subrange(0, pi) + l.subrange(iv + 1, l.len() as int);
    let l2 = l1.update(pi - 1, JugadaV { sub_var: l1[pi - 1].sub_var.push(st.long_parti as usize), ..l1[pi - 1] });
    assert(a2 == a1.update(ip, l2));
    assert(st1.idx_var == pi && st1.parentesis == 0 && st1.arr_var.len() == 0);
    let s2 = s.subrange(0, pi) + s.subrange(iv + 1, n);
    assert(sanes(l2) =~= s2);
    lema_nivel_paso(s, iv);
    if iv + 1 == n {
        assert(s.take(iv + 1) =~= s);
    }
    lema_nivel_llano(s, pi);
    let t = s.subrange(pi, iv + 1);
    assert(sanes(nueva) =~= sanes(st.arr_var).push(e.san));
    assert(sanes(nueva) =~= t);
    lema_quita_grupo(s, pi, iv);
    lema_subgrupo(s, pi, iv);
    assert(s2.take(pi) =~= s.take(pi));
    assert(s2.subrange(pi, s2.len() as int) =~= s.subrange(iv + 1, n));
    assert(linea_en_curso(a2[ip], st1));
    assert(a2[a.len() as int] == nueva);
    assert forall|k: int| 0 <= k < a.len() && k != ip implies a2[k] == a[k] by {}
    assert forall|k: int| ip < k < a2.len() implies grupo(#[trigger] sanes(a2[k])) by {
        if k < a.len() {
            assert(a2[k] == a[k]);
        }
    }
    lema_suma_empuja(a, ip + 1, nueva);
    lema_suma_cambia(a1, ip + 1, ip, l2);
    assert(sanes(nueva).drop_first() =~= s.subrange(pi + 1, iv + 1));
    let total = a0.len() + suma_pendientes(a0, 1);
    assert(a2.len() == a.len() + 1);
    assert(a2[0] == a0[0]);
    assert(bien_formada(w));
    assert(inicio_pendiente(st1) == pi);
    assert(a2[ip] == l2);
    assert(l2.len() == s2.len());
    assert(sanes(a2[ip]).subrange(pi, a2[ip].len() as int) =~= s.subrange(iv + 1, n));
    assert(suma_pendientes(a2, ip + 1) == suma_pendientes(a, ip + 1) + pendientes(nueva));
    assert(aperturas(s.subrange(pi, n)) == 1 + pendientes(nueva) + aperturas(s.subrange(iv + 1, n)));
    assert(a2.len() + aperturas(sanes(a2[ip]).subrange(inicio_pendiente(st1), a2[ip].len() as int))
        + suma_pendientes(a2, ip + 1) == total);
    assert forall|k: int| 1 <= k < ip && k < a2.len() implies grupo_llano(#[trigger] sanes(a2[k])) by {
        assert(a2[k] == a[k]);
    }
}

proof fn lema_paso(a0: Seq<Seq<JugadaV>>, v: ValidacionV, r: RespuestaV)
    requires
        inv_variantes(a0, v),
        paso_definido(v, r),
        !paso_fallido(v, r),
    ensures
        inv_variantes(a0, avanza_spec(v, r)),
{
    match v.fase {
        FaseV::Variantes(st) => {
            let a = v.partida.arr_partida;
            let ip = st.idx_par as int;
            let iv = st.idx_var as int;
            if !st.en_linea {
                lema_entre_lineas(a0, v, st, r);
            } else if linea_acabada(st) {
                assert(sanes(a[ip]).len() == a[ip].len());
            } else {
                let e = a[ip][iv];
                if entrada_de_motor(st, e) {
                    lema_paso_motor(a0, v, st, r);
                } else if st.parentesis == 0 {
                    if e.san == seq!['('] {
                        lema_abre_sub(a0, v, st, r);
                    } else {
                        lema_fin_linea(a0, v, st, r);
                    }
                } else if e.san == seq![')'] && st.parentesis == 1 {
                    lema_cierra_sub(a0, v, st, r);
                } else {
                    lema_sigue_sub(a0, v, st, r);
                }
            }
        },
        _ => {},
    }
}

proof fn lema_recorrido(a0: Seq<Seq<JugadaV>>, v: ValidacionV, rs: Seq<RespuestaV>)
    requires
        inv_variantes(a0, v),
        recorrido_definido(v, rs),
        sin_fallos(v, rs),
    ensures
        inv_variantes(a0, recorre(v, rs)),
    decreases rs.len(),
{
    if rs.len() > 0 {
        lema_paso(a0, v, rs[0]);
        lema_recorrido(a0, avanza_spec(v, rs[0]), rs.drop_first());
    }
}

/// Reading the variations takes every sub-variation out into a line of its
/// own. When it starts on a game whose lines after the main line are groups
/// (they open with `(`, their parentheses balance and close at their end)
/// and ends without the engine refusing anything, the main line is
/// unchanged, there is one new line for each `(` that the earlier lines held
/// after their first entry, and every line after the main line is `(`,
/// moves with no parenthesis, and `)`.
pub proof fn ley_lectura_variantes(p: PartiTV, rs: Seq<RespuestaV>)
    requires
        p.cabecera.len() > 10,
        lineas_no_vacias(p.arr_partida),
        p.arr_partida.len() >= 1,
        forall|k: int| 1 <= k < p.arr_partida.len() ==> grupo(#[trigger] sanes(p.arr_partida[k])),
        recorrido_definido(inicia_variantes(p), rs),
        sin_fallos(inicia_variantes(p), rs),
        recorre(inicia_variantes(p), rs).fase is Hecha,
    ensures
        recorre(inicia_variantes(p), rs).partida.arr_partida[0] == p.arr_partida[0],
        recorre(inicia_variantes(p), rs).partida.arr_partida.len() == p.arr_partida.len() + suma_pendientes(
            p.arr_partida,
            1,
        ),
        forall|k: int|
            1 <= k < recorre(inicia_variantes(p), rs).partida.arr_partida.len() ==> grupo_llano(
                #[trigger] sanes(recorre(inicia_variantes(p), rs).partida.arr_partida[k]),
            ),
{
    let v = inicia_variantes(p);
    let a0 = p.arr_partida;
    assert(inv_variantes(a0, v));
    lema_recorrido(a0, v, rs);
}
// ---------------------------------------------------------------------------
// The reading of the main line
// ---------------------------------------------------------------------------

/// How many variations the reading of the main line has open after its
/// first `i` tokens: `(` opens one; inside a variation a token that starts
/// with `)` closes one; outside, every token but `(` leaves none open.
pub open spec fn abiertas_tras(t: Seq<Seq<char>>, i: int) -> int
    decreases i,
{
    if i <= 0 {
        0
    } else {
        let n = abiertas_tras(t, i - 1);
        let tok = t[i - 1];
        if n == 0 {
            if tok == seq!['('] {
                1
            } else {
                0
            }
        } else if tok == seq!['('] {
            n + 1
        } else if empieza_con(tok, ')') {
            n - 1
        } else {
            n
        }
    }
}

/// Every token inside a variation that starts with `)` is `)` alone.
pub open spec fn cierres_sueltos(t: Seq<Seq<char>>) -> bool {
    forall|i: int|
        0 <= i < t.len() && abiertas_tras(t, i) > 0 && empieza_con(#[trigger] t[i], ')') ==> t[i] == seq![')']
}

/// The run stays in the reading of the main line until its last step.
pub open spec fn solo_principal(v: ValidacionV, rs: Seq<RespuestaV>) -> bool
    decreases rs.len(),
{
    rs.len() == 0 || ((v.fase is FenPrincipal || v.fase is Principal) && solo_principal(
        avanza_spec(v, rs[0]),
        rs.drop_first(),
    ))
}

/// A group still open `np` levels deep.
pub open spec fn grupo_abierto(s: Seq<Seq<char>>, np: int) -> bool {
    &&& s.len() >= 1
    &&& abre(s[0])
    &&& nivel(s) == np
    &&& forall|j: int| 1 <= j <= s.len() ==> nivel(#[trigger] s.take(j)) >= 1
}

/// Every line after the main line is a group.
pub open spec fn lineas_en_grupos(a: Seq<Seq<JugadaV>>) -> bool {
    &&& a.len() >= 1
    &&& forall|k: int| 1 <= k < a.len() ==> grupo(#[trigger] sanes(a[k]))
}

/// What holds at each step of the reading of the main line `0`.
pub open spec fn inv_principal(v: ValidacionV) -> bool {
    let p = v.partida;
    let a = p.arr_partida;
    &&& cierres_sueltos(p.movims)
    &&& match v.fase {
        FaseV::FenPrincipal(n) => n == 0 && a.len() == 0,
        FaseV::Principal(st) => {
            &&& st.nivel == 0
            &&& lineas_en_grupos(a)
            &&& st.num_parentesis == abiertas_tras(p.movims, st.index as int)
            &&& st.num_parentesis >= 0
            &&& (st.num_parentesis == 0 ==> st.arr_var.len() == 0)
            &&& (st.num_parentesis > 0 ==> grupo_abierto(sanes(st.arr_var), st.num_parentesis))
        },
        FaseV::Variantes(_) => v == inicia_variantes(p) && lineas_en_grupos(a),
        FaseV::Hecha => true,
    }
}

proof fn lema_paso_principal(v: ValidacionV, r: RespuestaV)
    requires
        inv_principal(v),
        bien_formada(v),
        paso_definido(v, r),
        v.fase is FenPrincipal || v.fase is Principal,
    ensures
        inv_principal(avanza_spec(v, r)),
{
    let p = v.partida;
    let a = p.arr_partida;
    let w = avanza_spec(v, r);
    assert(w.partida.movims == p.movims);
    match v.fase {
        FaseV::Principal(st) => {
            if principal_acabada(p, st) {
            } else {
                let tok = p.movims[st.index as int];
                let np = st.num_parentesis;
                let a1 = w.partida.arr_partida;
                assert(abiertas_tras(p.movims, st.index as int + 1) == if np == 0 {
                    if tok == seq!['('] { 1int } else { 0int }
                } else if tok == seq!['('] {
                    np + 1
                } else if empieza_con(tok, ')') {
                    np - 1
                } else {
                    np
                });
                if token_de_motor(st, tok) {
                    assert forall|k: int| 1 <= k < a1.len() implies grupo(#[trigger] sanes(a1[k])) by {
                        assert(a1[k] == a[k]);
                    }
                } else if np == 0 && (empieza_con(tok, '$') || empieza_con(tok, '{')) {
                    assert forall|k: int| 1 <= k < a1.len() implies grupo(#[trigger] sanes(a1[k])) by {
                        assert(a1[k] == a[k]);
                    }
                } else {
                    let np1 = if tok == seq!['('] { np + 1 } else { np };
                    let jug = jugada_de_variante(p, st, tok, np1 == 1 && tok == seq!['(']);
                    assert(jug.san == tok);
                    let av = st.arr_var;
                    let sv = sanes(av);
                    let av1 = if tok[0] != '$' && tok[0] != '{' {
                        av.push(jug)
                    } else if tok[0] == '$' {
                        av.update(av.len() - 1, JugadaV { nag: tok, ..av[av.len() - 1] })
                    } else {
                        av.update(av.len() - 1, JugadaV { comen: tok, ..av[av.len() - 1] })
                    };
                    let sv1 = sanes(av1);
                    if tok[0] != '$' && tok[0] != '{' {
                        assert(sv1 =~= sv.push(tok));
                        assert(sv1.take(sv.len() as int) =~= sv);
                        assert(sv1.drop_last() =~= sv);
                        if empieza_con(tok, ')') {
                            assert(tok == seq![')']);
                        }
                        if np == 0 {
                            assert(tok == seq!['(']);
                            assert(sv =~= Seq::<Seq<char>>::empty());
                            assert(sv1.take(1) =~= sv1);
                        }
                        assert forall|j: int| 1 <= j < sv1.len() implies nivel(#[trigger] sv1.take(j)) >= 1 by {
                            assert(sv1.take(j) =~= sv.take(j));
                        }
                        assert(sv1.last() == tok);
                        assert(nivel(sv1) == nivel(sv) + if abre(tok) {
                            1int
                        } else if cierra(tok) {
                            -1int
                        } else {
                            0int
                        });
                        if !(empieza_con(tok, ')') && np1 - 1 == 0) {
                            assert(nivel(sv1) >= 1);
                            assert forall|j: int| 1 <= j <= sv1.len() implies nivel(#[trigger] sv1.take(j)) >= 1 by {
                                if j < sv1.len() {
                                    assert(sv1.take(j) =~= sv.take(j));
                                } else {
                                    assert(sv1.take(j) =~= sv1);
                                }
                            }
                        }
                        if empieza_con(tok, ')') && np1 - 1 == 0 {
                            let na = a.push(av1);
                            assert(na[a.len() as int] == av1);
                            assert forall|k: int| 1 <= k < a1.len() implies grupo(#[trigger] sanes(a1[k])) by {
                                if k < a.len() {
                                    assert(a1[k] == a[k]);
                                } else {
                                    assert(a1[k] == av1);
                                }
                            }
                        }
                    } else {
                        assert(sv1 =~= sv);
                    }
                }
            }
        },
        _ => {},
    }
}
/// The parentheses that the texts open less those they close, as the
/// reading of the main line counts them: `(` opens one, and every text that
/// starts with `)` closes one.
pub open spec fn nivel_lectura(s: Seq<Seq<char>>) -> int
    decreases s.len(),
{
    if s.len() == 0 {
        0
    } else {
        nivel_lectura(s.drop_last()) + if abre(s.last()) {
            1int
        } else if empieza_con(s.last(), ')') {
            -1int
        } else {
            0int
        }
    }
}

/// A group as the reading of the main line counts it: it opens with `(`,
/// its parentheses balance, and none of them closes the first before its
/// end (so its last text starts with `)`).
pub open spec fn grupo_lectura(s: Seq<Seq<char>>) -> bool {
    &&& s.len() >= 2
    &&& abre(s[0])
    &&& nivel_lectura(s) == 0
    &&& forall|j: int| 1 <= j < s.len() ==> nivel_lectura(#[trigger] s.take(j)) >= 1
}

/// What holds at each step of the reading of the main line `0`, on every
/// move text.
pub open spec fn inv_principal_lectura(v: ValidacionV) -> bool {
    let p = v.partida;
    let a = p.arr_partida;
    match v.fase {
        FaseV::FenPrincipal(n) => n == 0 && a.len() == 0,
        FaseV::Principal(st) => {
            &&& st.nivel == 0
            &&& a.len() >= 1
            &&& forall|k: int| 1 <= k < a.len() ==> grupo_lectura(#[trigger] sanes(a[k]))
            &&& st.num_parentesis >= 0
            &&& (st.num_parentesis == 0 ==> st.arr_var.len() == 0)
            &&& (st.num_parentesis > 0 ==> {
                let sv = sanes(st.arr_var);
                &&& sv.len() >= 1
                &&& abre(sv[0])
                &&& nivel_lectura(sv) == st.num_parentesis
                &&& forall|j: int| 1 <= j <= sv.len() ==> nivel_lectura(#[trigger] sv.take(j)) >= 1
            })
        },
        FaseV::Variantes(_) => {
            &&& v == inicia_variantes(p)
            &&& a.len() >= 1
            &&& forall|k: int| 1 <= k < a.len() ==> grupo_lectura(#[trigger] sanes(a[k]))
        },
        FaseV::Hecha => true,
    }
}

proof fn lema_paso_principal_lectura(v: ValidacionV, r: RespuestaV)
    requires
        inv_principal_lectura(v),
        bien_formada(v),
        paso_definido(v, r),
        v.fase is FenPrincipal || v.fase is Principal,
    ensures
        inv_principal_lectura(avanza_spec(v, r)),
{
    let p = v.partida;
    let a = p.arr_partida;
    let w = avanza_spec(v, r);
    assert(w.partida.movims == p.movims);
    match v.fase {
        FaseV::Principal(st) => {
            if principal_acabada(p, st) {
            } else {
                let tok = p.movims[st.index as int];
                let np = st.num_parentesis;
                let a1 = w.partida.arr_partida;
                if token_de_motor(st, tok) {
                    assert forall|k: int| 1 <= k < a1.len() implies grupo_lectura(#[trigger] sanes(a1[k])) by {
                        assert(a1[k] == a[k]);
                    }
                } else if np == 0 && (empieza_con(tok, '$') || empieza_con(tok, '{')) {
                    assert forall|k: int| 1 <= k < a1.len() implies grupo_lectura(#[trigger] sanes(a1[k])) by {
                        assert(a1[k] == a[k]);
                    }
                } else {
                    let np1 = if tok == seq!['('] { np + 1 } else { np };
                    let jug = jugada_de_variante(p, st, tok, np1 == 1 && tok == seq!['(']);
                    assert(jug.san == tok);
                    let av = st.arr_var;
                    let sv = sanes(av);
                    let av1 = if tok[0] != '$' && tok[0] != '{' {
                        av.push(jug)
                    } else if tok[0] == '$' {
                        av.update(av.len() - 1, JugadaV { nag: tok, ..av[av.len() - 1] })
                    } else {
                        av.update(av.len() - 1, JugadaV { comen: tok, ..av[av.len() - 1] })
                    };
                    let sv1 = sanes(av1);
                    if tok[0] != '$' && tok[0] != '{' {
                        assert(sv1 =~= sv.push(tok));
                        assert(sv1.take(sv.len() as int) =~= sv);
                        assert(sv1.drop_last() =~= sv);
                        if np == 0 {
                            assert(tok == seq!['(']);
                            assert(sv =~= Seq::<Seq<char>>::empty());
                            assert(sv1.take(1) =~= sv1);
                        }
                        assert forall|j: int| 1 <= j < sv1.len() implies nivel_lectura(#[trigger] sv1.take(j)) >= 1 by {
                            assert(sv1.take(j) =~= sv.take(j));
                        }
                        assert(sv1.last() == tok);
                        assert(nivel_lectura(sv1) == nivel_lectura(sv) + if abre(tok) {
                            1int
                        } else if empieza_con(tok, ')') {
                            -1int
                        } else {
                            0int
                        });
                        if !(empieza_con(tok, ')') && np1 - 1 == 0) {
                            assert(nivel_lectura(sv1) >= 1);
                            assert forall|j: int| 1 <= j <= sv1.len() implies nivel_lectura(#[trigger] sv1.take(j)) >= 1 by {
                                if j < sv1.len() {
                                    assert(sv1.take(j) =~= sv.take(j));
                                } else {
                                    assert(sv1.take(j) =~= sv1);
                                }
                            }
                        }
                        if empieza_con(tok, ')') && np1 - 1 == 0 {
                            let na = a.push(av1);
                            assert(na[a.len() as int] == av1);
                            assert forall|k: int| 1 <= k < a1.len() implies grupo_lectura(#[trigger] sanes(a1[k])) by {
                                if k < a.len() {
                                    assert(a1[k] == a[k]);
                                } else {
                                    assert(a1[k] == av1);
                                }
                            }
                        }
                    } else {
                        assert(sv1 =~= sv);
                    }
                }
            }
        },
        _ => {},
    }
}

proof fn lema_recorrido_principal_lectura(v: ValidacionV, rs: Seq<RespuestaV>)
    requires
        inv_principal_lectura(v),
        bien_formada(v),
        recorrido_definido(v, rs),
        solo_principal(v, rs),
    ensures
        inv_principal_lectura(recorre(v, rs)),
    decreases rs.len(),
{
    if rs.len() > 0 {
        lema_paso_principal_lectura(v, rs[0]);
        ley_validacion_conserva_invariante(v, rs[0]);
        lema_recorrido_principal_lectura(avanza_spec(v, rs[0]), rs.drop_first());
    }
}

/// What the reading of the main line leaves, on every move text: when it
/// starts on a game with no lines yet, it has at every step a main line, and
/// each line after it is a group as that reading counts parentheses: it
/// opens with `(`, ends with a text that starts with `)` (a `)` glued to
/// the text after it too), and its parentheses, so counted, balance and do
/// not close the first before its end.
pub proof fn ley_lectura_principal_general(p: PartiTV, rs: Seq<RespuestaV>)
    requires
        p.cabecera.len() > 10,
        p.arr_partida.len() == 0,
        recorrido_definido(inicio(p), rs),
        solo_principal(inicio(p), rs),
    ensures
        recorre(inicio(p), rs).fase is Principal || recorre(inicio(p), rs).fase is Variantes ==> {
            let a = recorre(inicio(p), rs).partida.arr_partida;
            &&& a.len() >= 1
            &&& forall|k: int| 1 <= k < a.len() ==> grupo_lectura(#[trigger] sanes(a[k]))
        },
{
    assert(bien_formada(inicio(p)));
    lema_recorrido_principal_lectura(inicio(p), rs);
}

proof fn lema_recorrido_bien_formado(v: ValidacionV, rs: Seq<RespuestaV>)
    requires
        bien_formada(v),
        recorrido_definido(v, rs),
    ensures
        bien_formada(recorre(v, rs)),
    decreases rs.len(),
{
    if rs.len() > 0 {
        ley_validacion_conserva_invariante(v, rs[0]);
        lema_recorrido_bien_formado(avanza_spec(v, rs[0]), rs.drop_first());
    }
}

proof fn lema_recorrido_principal(v: ValidacionV, rs: Seq<RespuestaV>)
    requires
        inv_principal(v),
        bien_formada(v),
        recorrido_definido(v, rs),
        solo_principal(v, rs),
    ensures
        inv_principal(recorre(v, rs)),
    decreases rs.len(),
{
    if rs.len() > 0 {
        lema_paso_principal(v, rs[0]);
        ley_validacion_conserva_invariante(v, rs[0]);
        lema_recorrido_principal(avanza_spec(v, rs[0]), rs.drop_first());
    }
}

proof fn lema_recorrido_principal_enlaces(v: ValidacionV, rs: Seq<RespuestaV>)
    requires
        inv_enlaces_principal(v),
        bien_formada(v),
        recorrido_definido(v, rs),
        solo_principal(v, rs),
        v.partida.movims.len() <= usize::MAX,
    ensures
        inv_enlaces_principal(recorre(v, rs)),
    decreases rs.len(),
{
    if rs.len() > 0 {
        lema_paso_principal_enlaces(v, rs[0]);
        ley_validacion_conserva_invariante(v, rs[0]);
        lema_recorrido_principal_enlaces(avanza_spec(v, rs[0]), rs.drop_first());
    }
}

/// The validation as it starts on a game whose lines are still to be read.
pub open spec fn inicio(p: PartiTV) -> ValidacionV {
    ValidacionV { partida: p, fase: FaseV::FenPrincipal(0) }
}

/// The reading of the main line leaves every other line a group: when it
/// starts on a game with no lines yet, in whose moves every token inside a
/// variation that starts with `)` is `)` alone, it has at every step a main
/// line, and each line after it opens with `(`, balances its parentheses and
/// closes at its end; when it hands over to the reading of the variations,
/// that reading starts at its beginning.
pub proof fn ley_lectura_principal(p: PartiTV, rs: Seq<RespuestaV>)
    requires
        p.cabecera.len() > 10,
        p.arr_partida.len() == 0,
        cierres_sueltos(p.movims),
        recorrido_definido(inicio(p), rs),
        solo_principal(inicio(p), rs),
    ensures
        recorre(inicio(p), rs).fase is Principal || recorre(inicio(p), rs).fase is Variantes ==> lineas_en_grupos(
            recorre(inicio(p), rs).partida.arr_partida,
        ),
        recorre(inicio(p), rs).fase is Variantes ==> recorre(inicio(p), rs) == inicia_variantes(
            recorre(inicio(p), rs).partida,
        ),
{
    assert(bien_formada(inicio(p)));
    lema_recorrido_principal(inicio(p), rs);
}

/// `procesa_jugadas` reads the moves as `ahorma_partida` does: on a fresh
/// game (`PartiT::init`) and the two lines `lineas_partida` (the FEN header
/// line, and the moves with their line breaks made spaces), `ahorma_partida`
/// gives the game whose validation `procesa_jugadas` starts, as
/// `Validacion::nueva` starts it; so, whatever the engine answers, the two
/// validations end with the same lines.
pub proof fn ley_procesa_jugadas(jugadas: Seq<char>, fen: Seq<char>, rs: Seq<RespuestaV>)
    requires
        cabeceras_casan(lineas_partida(jugadas, fen)),
    ensures
        validacion_de_jugadas(jugadas, fen) == inicio(con_tokens(con_cabecera(partida_vacia(), lineas_partida(jugadas, fen)))),
        recorre(validacion_de_jugadas(jugadas, fen), rs).partida.arr_partida == recorre(
            inicio(con_tokens(con_cabecera(partida_vacia(), lineas_partida(jugadas, fen)))),
            rs,
        ).partida.arr_partida,
{
}

/// The game that the reading of the moves `jugadas` from the position `fen`
/// starts on has its eleven header fields and no lines yet: the readings
/// above apply to it from its first step.
pub proof fn ley_partida_preparada(jugadas: Seq<char>, fen: Seq<char>)
    ensures
        con_tokens(con_cabecera(partida_vacia(), lineas_partida(jugadas, fen))).cabecera.len() == 11,
        con_tokens(con_cabecera(partida_vacia(), lineas_partida(jugadas, fen))).arr_partida.len() == 0,
{
}

/// What the whole reading of the lines of a game leaves, on every move
/// text. Once the main line is read (the run `rs1`) and the variations are
/// read without the engine refusing anything (the run `rs2`):
/// - the main line is as the first reading left it;
/// - every line after it opens with `(`;
/// - every line after the main line hangs from exactly one entry of an
///   earlier line, which lists it once, and no entry links elsewhere;
/// - all the entries of a line share one depth: `0` on the main line, and
///   one more than that of the line it hangs from on every other.
pub proof fn ley_enlaces_partida(p: PartiTV, rs1: Seq<RespuestaV>, rs2: Seq<RespuestaV>)
    requires
        p.cabecera.len() > 10,
        p.arr_partida.len() == 0,
        p.movims.len() <= usize::MAX,
        recorrido_definido(inicio(p), rs1),
        solo_principal(inicio(p), rs1),
        recorre(inicio(p), rs1).fase is Variantes,
        recorrido_definido(recorre(inicio(p), rs1), rs2),
        sin_fallos(recorre(inicio(p), rs1), rs2),
        recorre(recorre(inicio(p), rs1), rs2).fase is Hecha,
        recorre(recorre(inicio(p), rs1), rs2).partida.arr_partida.len() <= usize::MAX,
    ensures
        recorre(recorre(inicio(p), rs1), rs2).partida.arr_partida[0] == recorre(inicio(p), rs1).partida.arr_partida[0],
        forall|k: int|
            1 <= k < recorre(recorre(inicio(p), rs1), rs2).partida.arr_partida.len() ==> abre(
                (#[trigger] recorre(recorre(inicio(p), rs1), rs2).partida.arr_partida[k])[0].san,
            ),
        enlaces_bien(recorre(recorre(inicio(p), rs1), rs2).partida.arr_partida),
        profundidades_bien(recorre(recorre(inicio(p), rs1), rs2).partida.arr_partida),
{
    let v0 = inicio(p);
    let v1 = recorre(v0, rs1);
    let a1 = v1.partida.arr_partida;
    assert(bien_formada(v0));
    lema_recorrido_bien_formado(v0, rs1);
    lema_recorrido_principal_enlaces(v0, rs1);
    assert(inv_enlaces_variantes(a1[0], v1)) by {
        assert forall|k: int| 1 < k < a1.len() implies sin_enlaces(#[trigger] a1[k], 0) by {}
    }
    lema_recorrido_enlaces(a1[0], v1, rs2);
}

/// The whole reading of the lines of a game, on move texts in which every
/// token inside a variation that starts with `)` is `)` alone. Once the main
/// line is read (the run `rs1`) and the variations are read without the
/// engine refusing anything (the run `rs2`), besides what
/// `ley_enlaces_partida` states:
/// - there is one new line for each `(` that the lines the first reading
///   left held after their first entry;
/// - every line after the main line is `(`, moves with no parenthesis, and
///   `)`.
pub proof fn ley_lectura_partida(p: PartiTV, rs1: Seq<RespuestaV>, rs2: Seq<RespuestaV>)
    requires
        p.cabecera.len() > 10,
        p.arr_partida.len() == 0,
        cierres_sueltos(p.movims),
        recorrido_definido(inicio(p), rs1),
        solo_principal(inicio(p), rs1),
        recorre(inicio(p), rs1).fase is Variantes,
        recorrido_definido(recorre(inicio(p), rs1), rs2),
        sin_fallos(recorre(inicio(p), rs1), rs2),
        recorre(recorre(inicio(p), rs1), rs2).fase is Hecha,
    ensures
        recorre(recorre(inicio(p), rs1), rs2).partida.arr_partida.len() == recorre(inicio(p), rs1).partida.arr_partida.len()
            + suma_pendientes(recorre(inicio(p), rs1).partida.arr_partida, 1),
        forall|k: int|
            1 <= k < recorre(recorre(inicio(p), rs1), rs2).partida.arr_partida.len() ==> grupo_llano(
                #[trigger] sanes(recorre(recorre(inicio(p), rs1), rs2).partida.arr_partida[k]),
            ),
{
    let v0 = inicio(p);
    let v1 = recorre(v0, rs1);
    ley_lectura_principal(p, rs1);
    lema_recorrido_bien_formado(v0, rs1);
    ley_lectura_variantes(v1.partida, rs2);
}

// ---------------------------------------------------------------------------
// Comments, NAGs and positions
// ---------------------------------------------------------------------------

/// A comment (a token that starts with `{`) or a NAG (one that starts with
/// `$`) read on the main line goes to the entry read last, of the main line
/// or, inside a variation, of the variation being gathered: a comment sets
/// its `comen` and a NAG its `nag`; the other field, the other entries and
/// the lines stay as they were, and the reading goes on with the next token.
pub proof fn ley_comentario_y_nag(v: ValidacionV, st: PrincipalV, r: RespuestaV)
    requires
        bien_formada(v),
        v.fase == FaseV::Principal(st),
        !principal_acabada(v.partida, st),
        empieza_con(v.partida.movims[st.index as int], '$') || empieza_con(v.partida.movims[st.index as int], '{'),
        paso_definido(v, r),
    ensures
        ({
            let tok = v.partida.movims[st.index as int];
            let w = avanza_spec(v, r);
            let a = v.partida.arr_partida;
            let es_nag = empieza_con(tok, '$');
            &&& w.fase is Principal
            &&& w.fase->Principal_0.index == st.index + 1
            &&& w.fase->Principal_0.num_parentesis == st.num_parentesis
            &&& if st.num_parentesis == 0 {
                let n = st.nivel as int;
                let x = a[n].last();
                let y = w.partida.arr_partida[n].last();
                &&& w.partida.arr_partida.len() == a.len()
                &&& w.partida.arr_partida[n].len() == a[n].len()
                &&& y.comen == (if es_nag { x.comen } else { tok })
                &&& y.nag == (if es_nag { tok } else { x.nag })
                &&& y == (JugadaV { comen: y.comen, nag: y.nag, ..x })
                &&& forall|k: int, j: int| 0 <= k < a.len() && 0 <= j < a[k].len() && !(k == n && j == a[n].len() - 1)
                    ==> w.partida.arr_partida[k][j] == a[k][j]
                &&& w.fase->Principal_0.arr_var == st.arr_var
            } else {
                let av = st.arr_var;
                let av1 = w.fase->Principal_0.arr_var;
                let x = av.last();
                let y = av1.last();
                &&& w.partida == v.partida
                &&& av1.len() == av.len()
                &&& y.comen == (if es_nag { x.comen } else { tok })
                &&& y.nag == (if es_nag { tok } else { x.nag })
                &&& y == (JugadaV { comen: y.comen, nag: y.nag, ..x })
                &&& forall|j: int| 0 <= j < av.len() - 1 ==> av1[j] == av[j]
            }
        }),
{
    let tok = v.partida.movims[st.index as int];
    assert(tok.len() > 0);
    if empieza_con(tok, '$') {
        assert(!empieza_con(tok, '{'));
    }
}

/// While a variation is read, the positions the engine gave for its moves
/// read so far are kept in order: they are the FENs of the entries before
/// the part still to be read.
pub open spec fn fens_de_la_linea(v: ValidacionV) -> bool {
    match v.fase {
        FaseV::Variantes(st) => st.en_linea ==> {
            let l = v.partida.arr_partida[st.idx_par as int];
            &&& 1 <= inicio_pendiente(st) <= l.len()
            &&& st.arr_fen.len() == inicio_pendiente(st) - 1
            &&& forall|i: int| 0 <= i < st.arr_fen.len() ==> #[trigger] st.arr_fen[i] == l[i + 1].fen
            &&& (st.parentesis == 0 ==> st.arr_var.len() == 0)
        },
        _ => true,
    }
}

proof fn lema_paso_fens(v: ValidacionV, r: RespuestaV)
    requires
        bien_formada(v),
        paso_definido(v, r),
        fens_de_la_linea(v),
    ensures
        fens_de_la_linea(avanza_spec(v, r)),
{
    let p = v.partida;
    let a = p.arr_partida;
    let w = avanza_spec(v, r);
    match v.fase {
        FaseV::Variantes(st) => {
            let ip = st.idx_par as int;
            let iv = st.idx_var as int;
            if !st.en_linea {
            } else if linea_acabada(st) {
            } else {
                let e = a[ip][iv];
                let l = a[ip];
                if entrada_de_motor(st, e) {
                    if let RespuestaV::Jugada(Some(j)) = r {
                        let st1 = w.fase->Variantes_0;
                        let l1 = w.partida.arr_partida[ip];
                        assert(l1 == l.update(iv, l1[iv]));
                        assert(l1[iv].fen == j.fen);
                        assert(st1.arr_fen == st.arr_fen.push(j.fen));
                        assert forall|i: int| 0 <= i < st1.arr_fen.len() implies #[trigger] st1.arr_fen[i] == l1[i + 1].fen by {
                            if i < st.arr_fen.len() {
                                assert(st1.arr_fen[i] == st.arr_fen[i]);
                            }
                        }
                    }
                } else {
                    let par1 = if e.san == seq!['('] { st.parentesis + 1 } else { st.parentesis };
                    if e.san == seq!['('] && par1 == 1 {
                    } else if par1 > 0 {
                        if e.san == seq![')'] && par1 - 1 == 0 {
                            let st1 = w.fase->Variantes_0;
                            let pi = st.pos_ini as int;
                            let l2 = w.partida.arr_partida[ip];
                            assert(e.san != seq!['(']) by {
                                assert(e.san[0] != '(');
                            }
                            assert(w == crate::validacion::paso_variante_sin_motor(p, st));
                            assert(l2.len() == l.len() - (iv + 1 - pi));
                            assert forall|j: int| 0 <= j < pi implies (#[trigger] l2[j]).fen == l[j].fen by {}
                            assert forall|i: int| 0 <= i < st1.arr_fen.len() implies #[trigger] st1.arr_fen[i] == l2[i + 1].fen by {
                                assert(l2[i + 1].fen == l[i + 1].fen);
                            }
                        }
                    }
                }
            }
        },
        _ => {},
    }
}

proof fn lema_recorrido_fens(v: ValidacionV, rs: Seq<RespuestaV>)
    requires
        bien_formada(v),
        recorrido_definido(v, rs),
        fens_de_la_linea(v),
    ensures
        fens_de_la_linea(recorre(v, rs)),
    decreases rs.len(),
{
    if rs.len() > 0 {
        lema_paso_fens(v, rs[0]);
        ley_validacion_conserva_invariante(v, rs[0]);
        lema_recorrido_fens(avanza_spec(v, rs[0]), rs.drop_first());
    }
}

/// A move of a variation played on the engine keeps the engine's answer: its
/// entry gets the position the engine gave after it, and its UCI text.
pub proof fn ley_jugada_de_variante(v: ValidacionV, st: VariantesV, j: RespuestaJugadaV)
    requires
        bien_formada(v),
        v.fase == FaseV::Variantes(st),
        st.en_linea,
        !linea_acabada(st),
        entrada_de_motor(st, v.partida.arr_partida[st.idx_par as int][st.idx_var as int]),
        paso_definido(v, RespuestaV::Jugada(Some(j))),
    ensures
        avanza_spec(v, RespuestaV::Jugada(Some(j))).partida.arr_partida[st.idx_par as int][st.idx_var as int].fen == j.fen,
        avanza_spec(v, RespuestaV::Jugada(Some(j))).partida.arr_partida[st.idx_par as int][st.idx_var as int].uci == j.uci,
        avanza_spec(v, RespuestaV::Jugada(Some(j))).partida.arr_partida[st.idx_par as int][st.idx_var as int].san
            == v.partida.arr_partida[st.idx_par as int][st.idx_var as int].san,
{
}

/// A sub-variation that opens inside a variation starts from the position in
/// which the move it replaces was played: at any point of a run of the
/// validation where the `(` of a sub-variation is read, the opening entry
/// gets the FEN of the entry two places before the `(` (the move before the
/// replaced one), and not that of the replaced move.
pub proof fn ley_fen_de_subvariante(p: PartiTV, rs: Seq<RespuestaV>, r: RespuestaV)
    requires
        bien_formada(inicio(p)),
        recorrido_definido(inicio(p), rs),
        recorre(inicio(p), rs).fase is Variantes,
        recorre(inicio(p), rs).fase->Variantes_0.en_linea,
        !linea_acabada(recorre(inicio(p), rs).fase->Variantes_0),
        recorre(inicio(p), rs).fase->Variantes_0.parentesis == 0,
        recorre(inicio(p), rs).partida.arr_partida[recorre(inicio(p), rs).fase->Variantes_0.idx_par as int][recorre(
            inicio(p),
            rs,
        ).fase->Variantes_0.idx_var as int].san == seq!['('],
        paso_definido(recorre(inicio(p), rs), r),
    ensures
        ({
            let v = recorre(inicio(p), rs);
            let st = v.fase->Variantes_0;
            let l = v.partida.arr_partida[st.idx_par as int];
            let iv = st.idx_var as int;
            &&& 3 <= iv < l.len()
            &&& avanza_spec(v, r).fase->Variantes_0.arr_var[0].fen == l[iv - 2].fen
            &&& avanza_spec(v, r).fase->Variantes_0.arr_var[0].san == seq!['(']
        }),
{
    lema_recorrido_fens(inicio(p), rs);
    lema_recorrido_bien_formado(inicio(p), rs);
    let v = recorre(inicio(p), rs);
    let st = v.fase->Variantes_0;
    let l = v.partida.arr_partida[st.idx_par as int];
    let iv = st.idx_var as int;
    let n = st.arr_fen.len() as int;
    let e = l[iv];
    assert(n >= 2);
    assert(st.arr_fen[n - 2] == l[n - 1].fen);
    assert(!entrada_de_motor(st, e));
    assert(avanza_spec(v, r) == crate::validacion::paso_variante_sin_motor(v.partida, st));
    assert(st.arr_var.push(e)[0] == e);
}

/// While the main line is read, the positions the engine gave are kept in
/// order: they are the FENs of the entries of the main line (its first
/// entry holds the starting position), until the engine refuses a move.
pub open spec fn fens_principal(v: ValidacionV) -> bool {
    let a = v.partida.arr_partida;
    match v.fase {
        FaseV::FenPrincipal(n) => n == a.len(),
        FaseV::Principal(st) => {
            &&& (st.num_parentesis == 0 ==> st.arr_var.len() == 0)
            &&& (!st.parada ==> {
                let l = a[st.nivel as int];
                &&& st.arr_fen.len() == l.len()
                &&& forall|i: int| 0 <= i < st.arr_fen.len() ==> #[trigger] st.arr_fen[i] == l[i].fen
            })
        },
        _ => true,
    }
}

proof fn lema_paso_fens_principal(v: ValidacionV, r: RespuestaV)
    requires
        bien_formada(v),
        paso_definido(v, r),
        fens_principal(v),
    ensures
        fens_principal(avanza_spec(v, r)),
{
    let p = v.partida;
    let a = p.arr_partida;
    let w = avanza_spec(v, r);
    match v.fase {
        FaseV::FenPrincipal(n) => {
            if r == RespuestaV::FenValida(true) {
                let a1 = w.partida.arr_partida;
                assert(a1[n as int] == seq![jugada_inicial(n, p.cabecera[10])]);
            }
        },
        FaseV::Principal(st) => {
            if !principal_acabada(p, st) {
                let n = st.nivel as int;
                let l = a[n];
                let tok = p.movims[st.index as int];
                let st1 = w.fase->Principal_0;
                let l1 = w.partida.arr_partida[n];
                if token_de_motor(st, tok) {
                    if let RespuestaV::Jugada(Some(j)) = r {
                        assert(l1 == l.push(l1.last()));
                        assert(st1.arr_fen == st.arr_fen.push(j.fen));
                        assert forall|i: int| 0 <= i < st1.arr_fen.len() implies #[trigger] st1.arr_fen[i] == l1[i].fen by {
                            if i < st.arr_fen.len() {
                                assert(st1.arr_fen[i] == st.arr_fen[i]);
                                assert(l1[i] == l[i]);
                            }
                        }
                    }
                } else {
                    assert(l1.len() == l.len());
                    assert(st1.arr_fen == st.arr_fen);
                    assert forall|i: int| 0 <= i < st1.arr_fen.len() implies #[trigger] st1.arr_fen[i] == l1[i].fen by {
                        assert(l1[i].fen == l[i].fen);
                    }
                }
            }
        },
        _ => {},
    }
}

proof fn lema_recorrido_fens_principal(v: ValidacionV, rs: Seq<RespuestaV>)
    requires
        bien_formada(v),
        recorrido_definido(v, rs),
        fens_principal(v),
    ensures
        fens_principal(recorre(v, rs)),
    decreases rs.len(),
{
    if rs.len() > 0 {
        lema_paso_fens_principal(v, rs[0]);
        ley_validacion_conserva_invariante(v, rs[0]);
        lema_recorrido_fens_principal(avanza_spec(v, rs[0]), rs.drop_first());
    }
}

/// A variation of the main line starts from the position in which the move
/// it replaces was played: at any point of the reading of the main line of
/// a game with no lines yet where the `(` that opens a variation is read,
/// its opening entry gets the FEN of the main-line entry before the last
/// one, and not that of the last move.
pub proof fn ley_fen_de_variante(p: PartiTV, rs: Seq<RespuestaV>, r: RespuestaV)
    requires
        bien_formada(inicio(p)),
        p.arr_partida.len() == 0,
        recorrido_definido(inicio(p), rs),
        recorre(inicio(p), rs).fase is Principal,
        !principal_acabada(recorre(inicio(p), rs).partida, recorre(inicio(p), rs).fase->Principal_0),
        recorre(inicio(p), rs).fase->Principal_0.num_parentesis == 0,
        recorre(inicio(p), rs).partida.movims[recorre(inicio(p), rs).fase->Principal_0.index as int] == seq!['('],
        paso_definido(recorre(inicio(p), rs), r),
    ensures
        ({
            let v = recorre(inicio(p), rs);
            let st = v.fase->Principal_0;
            let l = v.partida.arr_partida[st.nivel as int];
            &&& l.len() >= 2
            &&& avanza_spec(v, r).fase->Principal_0.arr_var[0].fen == l[l.len() - 2].fen
            &&& avanza_spec(v, r).fase->Principal_0.arr_var[0].san == seq!['(']
        }),
{
    lema_recorrido_fens_principal(inicio(p), rs);
    lema_recorrido_bien_formado(inicio(p), rs);
    let v = recorre(inicio(p), rs);
    let st = v.fase->Principal_0;
    let n = st.arr_fen.len() as int;
    assert(n >= 2);
    assert(st.arr_fen[n - 2] == v.partida.arr_partida[st.nivel as int][n - 2].fen);
    assert(st.arr_var.push(jugada_de_variante(v.partida, st, seq!['('], true))[0] == jugada_de_variante(
        v.partida,
        st,
        seq!['('],
        true,
    ));
}

/// A move of the main line played on the engine is added to the main line
/// as the engine gave it: its SAN and UCI texts, the side that played it and
/// the position after it; no other line changes.
pub proof fn ley_jugada_principal(v: ValidacionV, st: PrincipalV, j: RespuestaJugadaV)
    requires
        bien_formada(v),
        v.fase == FaseV::Principal(st),
        !principal_acabada(v.partida, st),
        token_de_motor(st, v.partida.movims[st.index as int]),
        paso_definido(v, RespuestaV::Jugada(Some(j))),
    ensures
        ({
            let a = v.partida.arr_partida;
            let b = avanza_spec(v, RespuestaV::Jugada(Some(j))).partida.arr_partida;
            let n = st.nivel as int;
            &&& b.len() == a.len()
            &&& b[n].len() == a[n].len() + 1
            &&& b[n].take(a[n].len() as int) == a[n]
            &&& b[n].last().san == j.san
            &&& b[n].last().uci == j.uci
            &&& b[n].last().turno == j.turno
            &&& b[n].last().fen == j.fen
            &&& b[n].last().sub_var.len() == 0
            &&& forall|k: int| 0 <= k < a.len() && k != n ==> b[k] == a[k]
        }),
{
    let a = v.partida.arr_partida;
    let b = avanza_spec(v, RespuestaV::Jugada(Some(j))).partida.arr_partida;
    let n = st.nivel as int;
    assert(b[n].take(a[n].len() as int) =~= a[n]);
}

/// When the engine refuses a move of the main line, the main line ends with
/// the game's result (header field 6) in place of the move, and the reading
/// of the main line stops.
pub proof fn ley_jugada_rechazada(v: ValidacionV, st: PrincipalV)
    requires
        bien_formada(v),
        v.fase == FaseV::Principal(st),
        !principal_acabada(v.partida, st),
        token_de_motor(st, v.partida.movims[st.index as int]),
        paso_definido(v, RespuestaV::Jugada(None)),
    ensures
        ({
            let a = v.partida.arr_partida;
            let w = avanza_spec(v, RespuestaV::Jugada(None));
            let b = w.partida.arr_partida;
            let n = st.nivel as int;
            &&& b[n].len() == a[n].len() + 1
            &&& b[n].take(a[n].len() as int) == a[n]
            &&& b[n].last().san == v.partida.cabecera[6]
            &&& b[n].last().uci == v.partida.cabecera[6]
            &&& w.fase is Principal
            &&& principal_acabada(w.partida, w.fase->Principal_0)
        }),
{
    let a = v.partida.arr_partida;
    let b = avanza_spec(v, RespuestaV::Jugada(None)).partida.arr_partida;
    let n = st.nivel as int;
    assert(b[n].take(a[n].len() as int) =~= a[n]);
}

/// When a variation of the main line closes, it becomes a new last line,
/// `(` and what was gathered up to its `)`, and the last entry of the main
/// line (the move the variation replaces) lists that line.
pub proof fn ley_cierre_de_variante(v: ValidacionV, st: PrincipalV, r: RespuestaV)
    requires
        bien_formada(v),
        v.fase == FaseV::Principal(st),
        !principal_acabada(v.partida, st),
        st.num_parentesis == 1,
        v.partida.movims[st.index as int] == seq![')'],
        paso_definido(v, r),
    ensures
        ({
            let a = v.partida.arr_partida;
            let b = avanza_spec(v, r).partida.arr_partida;
            let n = st.nivel as int;
            &&& b.len() == a.len() + 1
            &&& sanes(b[a.len() as int]) == sanes(st.arr_var).push(seq![')'])
            &&& b[n].len() == a[n].len()
            &&& b[n].last().sub_var == a[n].last().sub_var.push(a.len() as usize)
            &&& forall|j: int| 0 <= j < a[n].len() - 1 ==> b[n][j] == a[n][j]
            &&& avanza_spec(v, r).fase->Principal_0.num_parentesis == 0
        }),
{
    let a = v.partida.arr_partida;
    let b = avanza_spec(v, r).partida.arr_partida;
    let tok = v.partida.movims[st.index as int];
    assert(tok != seq!['(']) by {
        assert(tok[0] != '(');
    }
    assert(!empieza_con(tok, '$') && !empieza_con(tok, '{'));
    let jug = jugada_de_variante(v.partida, st, tok, false);
    assert(sanes(st.arr_var.push(jug)) =~= sanes(st.arr_var).push(seq![')']));
}

/// When a sub-variation closes inside a variation, it leaves the line being
/// read for a new last line, `(` and what was gathered up to its `)`; the
/// entry just before its `(` (the move it replaces) lists the new line, and
/// the entries before it stay in place.
pub proof fn ley_cierre_de_subvariante(v: ValidacionV, st: VariantesV, r: RespuestaV)
    requires
        bien_formada(v),
        v.fase == FaseV::Variantes(st),
        st.en_linea,
        !linea_acabada(st),
        st.parentesis == 1,
        v.partida.arr_partida[st.idx_par as int][st.idx_var as int].san == seq![')'],
        paso_definido(v, r),
    ensures
        ({
            let a = v.partida.arr_partida;
            let b = avanza_spec(v, r).partida.arr_partida;
            let ip = st.idx_par as int;
            let pi = st.pos_ini as int;
            &&& b.len() == a.len() + 1
            &&& sanes(b[a.len() as int]) == sanes(st.arr_var).push(seq![')'])
            &&& b[ip][pi - 1].sub_var == a[ip][pi - 1].sub_var.push(a.len() as usize)
            &&& forall|j: int| 0 <= j < pi - 1 ==> b[ip][j] == a[ip][j]
            &&& forall|k: int| 0 <= k < a.len() && k != ip ==> b[k] == a[k]
        }),
{
    let p = v.partida;
    let a = p.arr_partida;
    let ip = st.idx_par as int;
    let iv = st.idx_var as int;
    let e = a[ip][iv];
    assert(e.san != seq!['(']) by {
        assert(e.san[0] != '(');
    }
    assert(!entrada_de_motor(st, e));
    assert(avanza_spec(v, r) == crate::validacion::paso_variante_sin_motor(p, st));
    let nueva = st.arr_var.push(JugadaV { profundidad: dec_i(st.profundidad), ..e });
    assert(sanes(nueva) =~= sanes(st.arr_var).push(seq![')']));
}

// ---------------------------------------------------------------------------
// Links between lines, and their depths
// ---------------------------------------------------------------------------

/// Entry `j` of line `p` links to line `k`.
pub open spec fn enlace(a: Seq<Seq<JugadaV>>, p: int, j: int, k: int) -> bool {
    &&& 0 <= p < a.len()
    &&& 0 <= j < a[p].len()
    &&& 0 <= k <= usize::MAX
    &&& a[p][j].sub_var.contains(k as usize)
}

/// Every line after the main line hangs from exactly one entry of an
/// earlier line, which lists it once; no entry links elsewhere.
pub open spec fn enlaces_bien(a: Seq<Seq<JugadaV>>) -> bool {
    &&& forall|p: int, j: int, k: int| #[trigger] enlace(a, p, j, k) ==> 0 <= p < k < a.len()
    &&& forall|p1: int, j1: int, p2: int, j2: int, k: int|
        #[trigger] enlace(a, p1, j1, k) && #[trigger] enlace(a, p2, j2, k) ==> p1 == p2 && j1 == j2
    &&& forall|p: int, j: int| 0 <= p < a.len() && 0 <= j < a[p].len() ==> (#[trigger] a[p][j]).sub_var.no_duplicates()
    &&& forall|k: int| 1 <= k < a.len() ==> #[trigger] tiene_padre(a, k)
}

/// Some entry links to line `k`.
pub open spec fn tiene_padre(a: Seq<Seq<JugadaV>>, k: int) -> bool {
    exists|p: int, j: int| #[trigger] enlace(a, p, j, k)
}

/// The depth of a line: that of its first entry, read as a number.
pub open spec fn profundidad_de(l: Seq<JugadaV>) -> int {
    lee_i16_spec(l[0].profundidad)->0
}

/// All the entries of each line share one depth, a number; the main line's
/// is `0`, and a line that hangs from an entry of another is one deeper.
pub open spec fn profundidades_bien(a: Seq<Seq<JugadaV>>) -> bool {
    &&& a.len() >= 1
    &&& forall|k: int| 0 <= k < a.len() ==> (#[trigger] a[k]).len() > 0 && lee_i16_spec(a[k][0].profundidad) is Some
    &&& forall|k: int, i: int| 0 <= k < a.len() && 0 <= i < a[k].len() ==> (#[trigger] a[k][i]).profundidad == a[k][0].profundidad
    &&& lee_i16_spec(a[0][0].profundidad) == Some(0int)
    &&& forall|p: int, j: int, k: int| #[trigger] enlace(a, p, j, k) ==> profundidad_de(a[k]) == profundidad_de(a[p]) + 1
}

/// Line `l` has no links from entry `desde` on.
pub open spec fn sin_enlaces(l: Seq<JugadaV>, desde: int) -> bool {
    forall|j: int| desde <= j < l.len() ==> (#[trigger] l[j]).sub_var.len() == 0
}

/// Lines whose entries keep their links and depths keep the laws of both.
proof fn lema_mismos_enlaces(a: Seq<Seq<JugadaV>>, b: Seq<Seq<JugadaV>>)
    requires
        enlaces_bien(a),
        profundidades_bien(a),
        a.len() == b.len(),
        forall|p: int| 0 <= p < a.len() ==> (#[trigger] b[p]).len() == a[p].len(),
        forall|p: int, j: int| 0 <= p < a.len() && 0 <= j < a[p].len() ==> (#[trigger] b[p][j]).sub_var == a[p][j].sub_var
            && b[p][j].profundidad == a[p][j].profundidad,
    ensures
        enlaces_bien(b),
        profundidades_bien(b),
        forall|p: int, j: int, k: int| enlace(b, p, j, k) == enlace(a, p, j, k),
{
    assert forall|p: int, j: int, k: int| enlace(b, p, j, k) == enlace(a, p, j, k) by {
        if 0 <= p < a.len() && 0 <= j < a[p].len() {
            assert(b[p][j].sub_var == a[p][j].sub_var);
        }
    }
    assert forall|k: int| 1 <= k < b.len() implies #[trigger] tiene_padre(b, k) by {
        assert(tiene_padre(a, k));
        let (p, j) = choose|p: int, j: int| #[trigger] enlace(a, p, j, k);
        assert(enlace(b, p, j, k));
    }
    assert forall|p: int, j: int| 0 <= p < b.len() && 0 <= j < b[p].len() implies (#[trigger] b[p][j]).sub_var.no_duplicates() by {
        assert(b[p][j].sub_var == a[p][j].sub_var);
    }
    assert forall|k: int, i: int| 0 <= k < b.len() && 0 <= i < b[k].len() implies (#[trigger] b[k][i]).profundidad == b[k][0].profundidad by {
        assert(b[k][i].profundidad == a[k][i].profundidad);
        assert(b[k][0].profundidad == a[k][0].profundidad);
    }
    assert forall|k: int| 0 <= k < b.len() implies (#[trigger] b[k]).len() > 0 && lee_i16_spec(b[k][0].profundidad) is Some by {
        assert(b[k][0].profundidad == a[k][0].profundidad);
    }
    assert(b[0][0].profundidad == a[0][0].profundidad);
    assert forall|p: int, j: int, k: int| #[trigger] enlace(b, p, j, k) implies profundidad_de(b[k]) == profundidad_de(b[p]) + 1 by {
        assert(enlace(a, p, j, k));
        assert(b[k][0].profundidad == a[k][0].profundidad);
        assert(b[p][0].profundidad == a[p][0].profundidad);
    }
}

/// Adding one link, to a new last line, from an entry of an earlier line
/// keeps the laws of the links.
proof fn lema_enlace_nuevo(a: Seq<Seq<JugadaV>>, b: Seq<Seq<JugadaV>>, p0: int, j0: int)
    requires
        enlaces_bien(a),
        b.len() == a.len() + 1,
        0 <= p0 < a.len(),
        enlace(b, p0, j0, a.len() as int),
        forall|p: int, j: int, k: int| #[trigger] enlace(b, p, j, k) ==> enlace(a, p, j, k) || (p == p0 && j == j0 && k == a.len()),
        forall|p: int, j: int, k: int| #[trigger] enlace(a, p, j, k) ==> enlace(b, p, j, k),
        forall|p: int, j: int| 0 <= p < b.len() && 0 <= j < b[p].len() ==> (#[trigger] b[p][j]).sub_var.no_duplicates(),
    ensures
        enlaces_bien(b),
{
    let n = a.len() as int;
    assert forall|p1: int, j1: int, p2: int, j2: int, k: int|
        #[trigger] enlace(b, p1, j1, k) && #[trigger] enlace(b, p2, j2, k) implies p1 == p2 && j1 == j2 by {
        if k != n {
            assert(enlace(a, p1, j1, k));
            assert(enlace(a, p2, j2, k));
        } else {
            if enlace(a, p1, j1, k) {
            }
            if enlace(a, p2, j2, k) {
            }
        }
    }
    assert forall|k: int| 1 <= k < b.len() implies #[trigger] tiene_padre(b, k) by {
        if k < n {
            assert(tiene_padre(a, k));
            let (p, j) = choose|p: int, j: int| #[trigger] enlace(a, p, j, k);
            assert(enlace(b, p, j, k));
        } else {
            assert(enlace(b, p0, j0, k));
        }
    }
    assert forall|p: int, j: int, k: int| #[trigger] enlace(b, p, j, k) implies 0 <= p < k < b.len() by {
        if enlace(a, p, j, k) {
        }
    }
}
/// What holds of the links and depths at each step of the reading of the
/// variations: the laws of both, no links yet in what is still to be read,
/// and the depth of the open sub-variation one more than that of its line.
pub open spec fn inv_enlaces_variantes(l0: Seq<JugadaV>, v: ValidacionV) -> bool {
    let a = v.partida.arr_partida;
    &&& enlaces_bien(a)
    &&& profundidades_bien(a)
    &&& a[0] == l0
    &&& forall|k: int| 1 <= k < a.len() ==> abre((#[trigger] a[k])[0].san)
    &&& bien_formada(v)
    &&& match v.fase {
        FaseV::Variantes(st) => {
            let ip = st.idx_par as int;
            &&& forall|k: int| ip < k < a.len() ==> sin_enlaces(#[trigger] a[k], 0)
            &&& (!st.en_linea && ip < a.len() ==> sin_enlaces(a[ip], 0))
            &&& (st.en_linea ==> sin_enlaces(a[ip], inicio_pendiente(st)))
            &&& sin_enlaces(st.arr_var, 0)
            &&& (st.en_linea && st.parentesis == 0 ==> st.arr_var.len() == 0)
            &&& (st.en_linea && st.parentesis > 0 ==> {
                &&& st.arr_var.len() >= 1
                &&& abre(st.arr_var[0].san)
                &&& forall|i: int| 0 <= i < st.arr_var.len() ==> (#[trigger] st.arr_var[i]).profundidad == dec_i(st.profundidad)
                &&& st.profundidad == profundidad_de(a[ip]) + 1
                &&& i16::MIN <= st.profundidad <= i16::MAX
            })
        },
        FaseV::Hecha => true,
        _ => false,
    }
}

proof fn lema_enlaces_entre_lineas(l0: Seq<JugadaV>, v: ValidacionV, st: VariantesV, r: RespuestaV)
    requires
        inv_enlaces_variantes(l0, v),
        v.fase == FaseV::Variantes(st),
        paso_definido(v, r),
        !paso_fallido(v, r),
        !st.en_linea,
    ensures
        inv_enlaces_variantes(l0, avanza_spec(v, r)),
{
    ley_validacion_conserva_invariante(v, r);
}

proof fn lema_enlaces_mismas_lineas(l0: Seq<JugadaV>, v: ValidacionV, st: VariantesV, r: RespuestaV)
    requires
        inv_enlaces_variantes(l0, v),
        v.fase == FaseV::Variantes(st),
        paso_definido(v, r),
        !paso_fallido(v, r),
        st.en_linea,
        !linea_acabada(st),
        st.parentesis == 0,
        v.partida.arr_partida[st.idx_par as int][st.idx_var as int].san != seq!['('],
    ensures
        inv_enlaces_variantes(l0, avanza_spec(v, r)),
{
    ley_validacion_conserva_invariante(v, r);
    let p = v.partida;
    let a = p.arr_partida;
    let ip = st.idx_par as int;
    let iv = st.idx_var as int;
    let w = avanza_spec(v, r);
    let a1 = w.partida.arr_partida;
    assert(a1 == a.update(ip, a1[ip]));
    assert(a1[ip].len() == a[ip].len());
    assert forall|j: int| 0 <= j < a[ip].len() implies (#[trigger] a1[ip][j]).sub_var == a[ip][j].sub_var
        && a1[ip][j].profundidad == a[ip][j].profundidad by {}
    assert forall|q: int, j: int| 0 <= q < a.len() && 0 <= j < a[q].len() implies (#[trigger] a1[q][j]).sub_var == a[q][j].sub_var
        && a1[q][j].profundidad == a[q][j].profundidad by {
        if q != ip {
            assert(a1[q] == a[q]);
        }
    }
    lema_mismos_enlaces(a, a1);
    assert forall|k: int| ip < k < a1.len() implies sin_enlaces(#[trigger] a1[k], 0) by {
        assert(a1[k] == a[k]);
    }
}

proof fn lema_enlaces_dentro(l0: Seq<JugadaV>, v: ValidacionV, st: VariantesV, r: RespuestaV)
    requires
        inv_enlaces_variantes(l0, v),
        v.fase == FaseV::Variantes(st),
        paso_definido(v, r),
        st.en_linea,
        !linea_acabada(st),
        !entrada_de_motor(st, v.partida.arr_partida[st.idx_par as int][st.idx_var as int]),
        !(v.partida.arr_partida[st.idx_par as int][st.idx_var as int].san == seq![')'] && st.parentesis == 1),
        st.parentesis > 0 || v.partida.arr_partida[st.idx_par as int][st.idx_var as int].san == seq!['('],
    ensures
        inv_enlaces_variantes(l0, avanza_spec(v, r)),
{
    ley_validacion_conserva_invariante(v, r);
    let p = v.partida;
    let a = p.arr_partida;
    let ip = st.idx_par as int;
    let iv = st.idx_var as int;
    let e = a[ip][iv];
    let w = avanza_spec(v, r);
    let st1 = w.fase->Variantes_0;
    assert(w.partida == p);
    assert(e.sub_var.len() == 0);
    if st.parentesis == 0 {
        let x = lee_i16_spec(a[ip][0].profundidad)->0;
        assert(st1.profundidad == x + 1);
        assert(st1.arr_var.len() == 1);
        assert(st1.arr_var[0].profundidad == dec_i(st1.profundidad));
        assert(st1.arr_var[0].sub_var == e.sub_var);
    } else {
        assert(st1.arr_var == st.arr_var.push(JugadaV { profundidad: dec_i(st.profundidad), ..e }));
        assert forall|i: int| 0 <= i < st1.arr_var.len() implies (#[trigger] st1.arr_var[i]).profundidad == dec_i(st1.profundidad) by {
            if i < st.arr_var.len() {
                assert(st1.arr_var[i] == st.arr_var[i]);
            }
        }
        assert forall|j: int| 0 <= j < st1.arr_var.len() implies (#[trigger] st1.arr_var[j]).sub_var.len() == 0 by {
            if j < st.arr_var.len() {
                assert(st1.arr_var[j] == st.arr_var[j]);
            }
        }
    }
}
#[verifier::rlimit(40)]
proof fn lema_enlaces_cierra(l0: Seq<JugadaV>, v: ValidacionV, st: VariantesV, r: RespuestaV)
    requires
        inv_enlaces_variantes(l0, v),
        v.fase == FaseV::Variantes(st),
        paso_definido(v, r),
        st.en_linea,
        !linea_acabada(st),
        st.parentesis == 1,
        v.partida.arr_partida[st.idx_par as int][st.idx_var as int].san == seq![')'],
        avanza_spec(v, r).partida.arr_partida.len() <= usize::MAX,
    ensures
        inv_enlaces_variantes(l0, avanza_spec(v, r)),
{
    ley_validacion_conserva_invariante(v, r);
    let p = v.partida;
    let a = p.arr_partida;
    let n = a.len() as int;
    let ip = st.idx_par as int;
    let iv = st.idx_var as int;
    let pi = st.pos_ini as int;
    let e = a[ip][iv];
    let w = avanza_spec(v, r);
    let st1 = w.fase->Variantes_0;
    let a2 = w.partida.arr_partida;
    let nueva = st.arr_var.push(JugadaV { profundidad: dec_i(st.profundidad), ..e });
    let a1 = a.push(nueva);
    let l = a[ip];
    assert(a1[ip] == l);
    let l1 = l.subrange(0, pi) + l.subrange(iv + 1, l.len() as int);
    let l2 = l1.update(pi - 1, JugadaV { sub_var: l1[pi - 1].sub_var.push(st.long_parti as usize), ..l1[pi - 1] });
    assert(e.san != seq!['(']) by {
        assert(e.san[0] != '(');
    }
    assert(!entrada_de_motor(st, e));
    assert(w == crate::validacion::paso_variante_sin_motor(p, st));
    assert(a2 == a1.update(ip, l2));
    assert(st.long_parti == n);
    // the entries of the line left
    assert forall|j: int| 0 <= j < l2.len() && j != pi - 1 implies (#[trigger] l2[j]) == (if j < pi {
        l[j]
    } else {
        l[j + iv + 1 - pi]
    }) by {}
    assert(l2[pi - 1].sub_var == l[pi - 1].sub_var.push(n as usize));
    assert(l2[pi - 1].profundidad == l[pi - 1].profundidad);
    assert(l2[0].profundidad == l[0].profundidad);
    assert(a2[n] == nueva);
    assert forall|q: int| 0 <= q < n && q != ip implies #[trigger] a2[q] == a[q] by {}
    assert(a2[ip] == l2);
    // the new line has no links, and one depth
    assert forall|j: int| 0 <= j < nueva.len() implies (#[trigger] nueva[j]).sub_var.len() == 0
        && nueva[j].profundidad == dec_i(st.profundidad) by {
        if j < st.arr_var.len() {
            assert(nueva[j] == st.arr_var[j]);
        }
    }
    ley_lee_i16_decimal(st.profundidad as i16);
    assert(profundidad_de(nueva) == st.profundidad);
    // links
    assert forall|q: int, j: int, k: int| #[trigger] enlace(a2, q, j, k) implies enlace(a, q, j, k) || (q == ip && j == pi - 1
        && k == n) by {
        if q == n {
            assert(a2[q][j].sub_var.len() == 0);
        } else if q != ip {
            assert(a2[q] == a[q]);
        } else if j < pi - 1 {
            assert(a2[q][j] == l[j]);
        } else if j == pi - 1 {
            let x = l[j].sub_var;
            let y = x.push(n as usize);
            let i = choose|i: int| 0 <= i < y.len() && #[trigger] y[i] == k as usize;
            if i < x.len() {
                assert(x[i] == k as usize);
                assert(enlace(a, q, j, k));
            } else {
                assert(k as usize == n as usize);
            }
        } else {
            assert(a2[q][j] == l[j + iv + 1 - pi]);
            assert(l[j + iv + 1 - pi].sub_var.len() == 0);
        }
    }
    assert forall|q: int, j: int, k: int| #[trigger] enlace(a, q, j, k) implies enlace(a2, q, j, k) by {
        if q == ip {
            assert(j < pi);
            if j < pi - 1 {
                assert(a2[q][j] == l[j]);
            } else {
                let x = l[j].sub_var;
                let i = choose|i: int| 0 <= i < x.len() && #[trigger] x[i] == k as usize;
                assert(x.push(n as usize)[i] == k as usize);
            }
        } else {
            assert(a2[q] == a[q]);
        }
    }
    assert(l[pi - 1].sub_var.push(n as usize)[l[pi - 1].sub_var.len() as int] == n as usize);
    assert(enlace(a2, ip, pi - 1, n));
    assert forall|q: int, j: int| 0 <= q < a2.len() && 0 <= j < a2[q].len() implies (#[trigger] a2[q][j]).sub_var.no_duplicates() by {
        if q == n {
            assert(a2[q][j].sub_var.len() == 0);
        } else if q != ip {
            assert(a2[q] == a[q]);
        } else if j < pi - 1 {
            assert(a2[q][j] == l[j]);
        } else if j == pi - 1 {
            let x = l[j].sub_var;
            assert(x.no_duplicates());
            assert(!x.contains(n as usize)) by {
                if x.contains(n as usize) {
                    assert(enlace(a, ip, j, n));
                }
            }
            let y = x.push(n as usize);
            assert forall|i1: int, i2: int| 0 <= i1 < y.len() && 0 <= i2 < y.len() && i1 != i2
                implies #[trigger] y[i1] != #[trigger] y[i2] by {
                if i1 < x.len() && i2 < x.len() {
                } else if i1 < x.len() {
                    assert(x[i1] != n as usize);
                } else if i2 < x.len() {
                    assert(x[i2] != n as usize);
                }
            }
        } else {
            assert(a2[q][j] == l[j + iv + 1 - pi]);
            assert(l[j + iv + 1 - pi].sub_var.len() == 0);
        }
    }
    lema_enlace_nuevo(a, a2, ip, pi - 1);
    // depths
    assert forall|k: int| 0 <= k < a2.len() implies (#[trigger] a2[k]).len() > 0 && lee_i16_spec(a2[k][0].profundidad) is Some by {
        if k < n && k != ip {
            assert(a2[k] == a[k]);
        }
    }
    assert forall|k: int, i: int| 0 <= k < a2.len() && 0 <= i < a2[k].len() implies (#[trigger] a2[k][i]).profundidad
        == a2[k][0].profundidad by {
        if k == n {
        } else if k != ip {
            assert(a2[k] == a[k]);
        } else if i == pi - 1 {
        } else if i < pi {
            assert(a2[k][i] == l[i]);
        } else {
            assert(a2[k][i] == l[i + iv + 1 - pi]);
        }
    }
    assert(a2[0] == a[0]);
    assert forall|q: int, j: int, k: int| #[trigger] enlace(a2, q, j, k) implies profundidad_de(a2[k]) == profundidad_de(a2[q]) + 1 by {
        if enlace(a, q, j, k) {
            assert(a2[k][0].profundidad == a[k][0].profundidad) by {
                if k != ip {
                    assert(a2[k] == a[k]);
                }
            }
            assert(a2[q][0].profundidad == a[q][0].profundidad) by {
                if q != ip {
                    assert(a2[q] == a[q]);
                }
            }
        }
    }
    // what is still to be read
    assert forall|k: int| ip < k < a2.len() implies sin_enlaces(#[trigger] a2[k], 0) by {
        if k < n {
            assert(a2[k] == a[k]);
        }
    }
    assert forall|j: int| pi <= j < l2.len() implies (#[trigger] l2[j]).sub_var.len() == 0 by {
        assert(l2[j] == l[j + iv + 1 - pi]);
    }
    assert(st1.idx_var == pi && st1.parentesis == 0 && st1.arr_var.len() == 0);
}
proof fn lema_paso_enlaces(l0: Seq<JugadaV>, v: ValidacionV, r: RespuestaV)
    requires
        inv_enlaces_variantes(l0, v),
        paso_definido(v, r),
        !paso_fallido(v, r),
        avanza_spec(v, r).partida.arr_partida.len() <= usize::MAX,
    ensures
        inv_enlaces_variantes(l0, avanza_spec(v, r)),
{
    match v.fase {
        FaseV::Variantes(st) => {
            let a = v.partida.arr_partida;
            let ip = st.idx_par as int;
            let iv = st.idx_var as int;
            if !st.en_linea {
                lema_enlaces_entre_lineas(l0, v, st, r);
            } else if linea_acabada(st) {
                ley_validacion_conserva_invariante(v, r);
            } else {
                let e = a[ip][iv];
                if entrada_de_motor(st, e) {
                    lema_enlaces_mismas_lineas(l0, v, st, r);
                } else if st.parentesis == 0 {
                    if e.san == seq!['('] {
                        lema_enlaces_dentro(l0, v, st, r);
                    } else {
                        lema_enlaces_mismas_lineas(l0, v, st, r);
                    }
                } else if e.san == seq![')'] && st.parentesis == 1 {
                    lema_enlaces_cierra(l0, v, st, r);
                } else {
                    lema_enlaces_dentro(l0, v, st, r);
                }
            }
        },
        _ => {},
    }
}

proof fn lema_paso_no_decrece(v: ValidacionV, r: RespuestaV)
    requires
        bien_formada(v),
        paso_definido(v, r),
        v.fase is Variantes || v.fase is Hecha,
        !paso_fallido(v, r),
    ensures
        avanza_spec(v, r).partida.arr_partida.len() >= v.partida.arr_partida.len(),
        avanza_spec(v, r).fase is Variantes || avanza_spec(v, r).fase is Hecha,
{
    match v.fase {
        FaseV::Variantes(st) => {
            let p = v.partida;
            if !st.en_linea {
            } else if linea_acabada(st) {
            } else {
                let e = p.arr_partida[st.idx_par as int][st.idx_var as int];
                if entrada_de_motor(st, e) {
                } else {
                    assert(avanza_spec(v, r) == crate::validacion::paso_variante_sin_motor(p, st));
                }
            }
        },
        _ => {},
    }
}

/// No step of the reading of the variations that does not fail takes a line
/// away.
proof fn lema_no_decrece(v: ValidacionV, rs: Seq<RespuestaV>)
    requires
        bien_formada(v),
        v.fase is Variantes || v.fase is Hecha,
        recorrido_definido(v, rs),
        sin_fallos(v, rs),
    ensures
        recorre(v, rs).partida.arr_partida.len() >= v.partida.arr_partida.len(),
    decreases rs.len(),
{
    if rs.len() > 0 {
        lema_paso_no_decrece(v, rs[0]);
        ley_validacion_conserva_invariante(v, rs[0]);
        lema_no_decrece(avanza_spec(v, rs[0]), rs.drop_first());
    }
}

proof fn lema_recorrido_enlaces(l0: Seq<JugadaV>, v: ValidacionV, rs: Seq<RespuestaV>)
    requires
        inv_enlaces_variantes(l0, v),
        recorrido_definido(v, rs),
        sin_fallos(v, rs),
        recorre(v, rs).partida.arr_partida.len() <= usize::MAX,
    ensures
        inv_enlaces_variantes(l0, recorre(v, rs)),
    decreases rs.len(),
{
    if rs.len() > 0 {
        let w = avanza_spec(v, rs[0]);
        lema_paso_no_decrece(v, rs[0]);
        ley_validacion_conserva_invariante(v, rs[0]);
        lema_no_decrece(w, rs.drop_first());
        lema_paso_enlaces(l0, v, rs[0]);
        lema_recorrido_enlaces(l0, w, rs.drop_first());
    }
}

/// Lines whose links are those of `a` keep the laws of the links.
proof fn lema_enlaces_equivalentes(a: Seq<Seq<JugadaV>>, b: Seq<Seq<JugadaV>>)
    requires
        enlaces_bien(a),
        a.len() == b.len(),
        forall|p: int, j: int, k: int| #[trigger] enlace(b, p, j, k) == enlace(a, p, j, k),
        forall|p: int, j: int| 0 <= p < b.len() && 0 <= j < b[p].len() ==> (#[trigger] b[p][j]).sub_var.no_duplicates(),
    ensures
        enlaces_bien(b),
{
    assert forall|k: int| 1 <= k < b.len() implies #[trigger] tiene_padre(b, k) by {
        assert(tiene_padre(a, k));
        let (p, j) = choose|p: int, j: int| #[trigger] enlace(a, p, j, k);
        assert(enlace(b, p, j, k));
    }
    assert forall|p1: int, j1: int, p2: int, j2: int, k: int|
        #[trigger] enlace(b, p1, j1, k) && #[trigger] enlace(b, p2, j2, k) implies p1 == p2 && j1 == j2 by {
        assert(enlace(a, p1, j1, k));
        assert(enlace(a, p2, j2, k));
    }
}

/// What holds of the links and depths at each step of the reading of the
/// main line: only its entries link, to the lines its variations became;
/// its entries are at depth `0`, and those of every other line, and of the
/// variation being read, at depth `1`.
pub open spec fn inv_enlaces_principal(v: ValidacionV) -> bool {
    let a = v.partida.arr_partida;
    match v.fase {
        FaseV::FenPrincipal(n) => n == 0 && a.len() == 0,
        FaseV::Hecha => true,
        _ => {
            &&& enlaces_bien(a)
            &&& profundidades_bien(a)
            &&& forall|p: int, j: int, k: int| #[trigger] enlace(a, p, j, k) ==> p == 0
            &&& forall|k: int| 1 <= k < a.len() ==> sin_enlaces(#[trigger] a[k], 0)
            &&& a[0][0].profundidad == dec_u(0)
            &&& forall|k: int| 1 <= k < a.len() ==> (#[trigger] a[k])[0].profundidad == dec_u(1)
            &&& forall|k: int| 1 <= k < a.len() ==> abre((#[trigger] a[k])[0].san)
            &&& match v.fase {
                FaseV::Principal(st) => {
                    &&& st.nivel == 0
                    &&& sin_enlaces(st.arr_var, 0)
                    &&& forall|i: int| 0 <= i < st.arr_var.len() ==> (#[trigger] st.arr_var[i]).profundidad == dec_u(1)
                    &&& a.len() <= st.index + 1
                    &&& (st.num_parentesis == 0 ==> st.arr_var.len() == 0)
                    &&& (st.arr_var.len() > 0 ==> abre(st.arr_var[0].san))
                },
                _ => v == inicia_variantes(v.partida),
            }
        },
    }
}

proof fn lema_profundidades_fijas()
    ensures
        lee_i16_spec(dec_u(0)) == Some(0int),
        lee_i16_spec(dec_u(1)) == Some(1int),
{
    ley_lee_i16_decimal(0);
    ley_lee_i16_decimal(1);
    assert(decimal_con_signo(0) == dec_u(0));
    assert(decimal_con_signo(1) == dec_u(1));
}
/// The main line gains an entry with no links at depth `0`.
proof fn lema_enlaces_principal_crece(a: Seq<Seq<JugadaV>>, b: Seq<Seq<JugadaV>>, x: JugadaV)
    requires
        enlaces_bien(a),
        profundidades_bien(a),
        a[0][0].profundidad == dec_u(0),
        x.sub_var.len() == 0,
        x.profundidad == dec_u(0),
        b == a.update(0, a[0].push(x)),
    ensures
        enlaces_bien(b),
        profundidades_bien(b),
        forall|p: int, j: int, k: int| #[trigger] enlace(b, p, j, k) == enlace(a, p, j, k),
{
    assert forall|p: int, j: int, k: int| #[trigger] enlace(b, p, j, k) == enlace(a, p, j, k) by {
        if p == 0 && j == a[0].len() {
            assert(b[0][j] == x);
        } else if 0 <= p < a.len() && 0 <= j < a[p].len() {
            assert(b[p][j] == a[p][j]);
        }
    }
    assert forall|p: int, j: int| 0 <= p < b.len() && 0 <= j < b[p].len() implies (#[trigger] b[p][j]).sub_var.no_duplicates() by {
        if p == 0 && j == a[0].len() {
            assert(b[0][j] == x);
        } else {
            assert(b[p][j] == a[p][j]);
        }
    }
    lema_enlaces_equivalentes(a, b);
    assert forall|k: int, i: int| 0 <= k < b.len() && 0 <= i < b[k].len() implies (#[trigger] b[k][i]).profundidad == b[k][0].profundidad by {
        if k == 0 && i == a[0].len() {
            assert(b[0][i] == x);
        } else {
            assert(b[k][i] == a[k][i]);
        }
        assert(b[k][0] == a[k][0]);
    }
    assert forall|k: int| 0 <= k < b.len() implies (#[trigger] b[k]).len() > 0 && lee_i16_spec(b[k][0].profundidad) is Some by {
        assert(b[k][0] == a[k][0]);
    }
    assert(b[0][0] == a[0][0]);
    assert forall|p: int, j: int, k: int| #[trigger] enlace(b, p, j, k) implies profundidad_de(b[k]) == profundidad_de(b[p]) + 1 by {
        assert(enlace(a, p, j, k));
        assert(b[k][0] == a[k][0]);
        assert(b[p][0] == a[p][0]);
    }
}

#[verifier::rlimit(40)]
proof fn lema_paso_principal_enlaces(v: ValidacionV, r: RespuestaV)
    requires
        inv_enlaces_principal(v),
        bien_formada(v),
        paso_definido(v, r),
        v.fase is FenPrincipal || v.fase is Principal,
        v.partida.movims.len() <= usize::MAX,
    ensures
        inv_enlaces_principal(avanza_spec(v, r)),
{
    let p = v.partida;
    let a = p.arr_partida;
    let w = avanza_spec(v, r);
    lema_profundidades_fijas();
    match v.fase {
        FaseV::FenPrincipal(n) => {
            if r == RespuestaV::FenValida(true) {
                let a1 = w.partida.arr_partida;
                let ji = jugada_inicial(0, p.cabecera[10]);
                assert(a1 =~= seq![seq![ji]]);
                assert forall|q: int, j: int, k: int| #[trigger] enlace(a1, q, j, k) implies false by {
                    assert(a1[q][j] == ji);
                }
                assert forall|q: int, j: int| 0 <= q < a1.len() && 0 <= j < a1[q].len() implies (#[trigger] a1[q][j]).sub_var.no_duplicates() by {
                    assert(a1[q][j] == ji);
                }
                assert forall|k: int, i: int| 0 <= k < a1.len() && 0 <= i < a1[k].len() implies (#[trigger] a1[k][i]).profundidad == a1[k][0].profundidad by {
                    assert(i == 0);
                }
            }
        },
        FaseV::Principal(st) => {
            if principal_acabada(p, st) {
            } else {
                let tok = p.movims[st.index as int];
                let np = st.num_parentesis;
                let a1 = w.partida.arr_partida;
                if token_de_motor(st, tok) {
                    let x = a1[0].last();
                    assert(a1 == a.update(0, a[0].push(x)));
                    lema_enlaces_principal_crece(a, a1, x);
                    assert forall|k: int| 1 <= k < a1.len() implies sin_enlaces(#[trigger] a1[k], 0) && a1[k][0].profundidad == dec_u(1) by {
                        assert(a1[k] == a[k]);
                    }
                    assert(a1[0][0] == a[0][0]);
                } else if np == 0 && (empieza_con(tok, '$') || empieza_con(tok, '{')) {
                    let ult = a[0].len() - 1;
                    assert(a1 == a.update(0, a1[0]));
                    assert forall|q: int, j: int| 0 <= q < a.len() && 0 <= j < a[q].len() implies (#[trigger] a1[q][j]).sub_var == a[q][j].sub_var
                        && a1[q][j].profundidad == a[q][j].profundidad by {
                        if q != 0 {
                            assert(a1[q] == a[q]);
                        }
                    }
                    lema_mismos_enlaces(a, a1);
                    assert forall|k: int| 1 <= k < a1.len() implies sin_enlaces(#[trigger] a1[k], 0) && a1[k][0].profundidad == dec_u(1) by {
                        assert(a1[k] == a[k]);
                    }
                } else {
                    let np1 = if tok == seq!['('] { np + 1 } else { np };
                    let jug = jugada_de_variante(p, st, tok, np1 == 1 && tok == seq!['(']);
                    let av = st.arr_var;
                    let av1 = if tok[0] != '$' && tok[0] != '{' {
                        av.push(jug)
                    } else if tok[0] == '$' {
                        av.update(av.len() - 1, JugadaV { nag: tok, ..av[av.len() - 1] })
                    } else {
                        av.update(av.len() - 1, JugadaV { comen: tok, ..av[av.len() - 1] })
                    };
                    assert(jug.sub_var.len() == 0 && jug.profundidad == dec_u(1));
                    assert forall|i: int| 0 <= i < av1.len() implies (#[trigger] av1[i]).sub_var.len() == 0 && av1[i].profundidad == dec_u(1) by {
                        if i < av.len() {
                            assert(av[i].sub_var.len() == 0);
                        }
                    }
                    if empieza_con(tok, ')') && np1 - 1 == 0 {
                        let n = a.len() as int;
                        let b = a.push(av1);
                        let l1 = b[0].len() - 1;
                        let y = JugadaV { sub_var: b[0][l1].sub_var.push((b.len() - 1) as usize), ..b[0][l1] };
                        assert(a1 == b.update(0, b[0].update(l1, y)));
                        assert(a1[n] == av1);
                        assert(b[0] == a[0]);
                        assert(n <= usize::MAX);
                        assert forall|q: int, j: int, k: int| #[trigger] enlace(a1, q, j, k) implies enlace(a, q, j, k) || (q == 0 && j == l1
                            && k == n) by {
                            if q == n {
                                assert(a1[q][j] == av1[j]);
                            } else if q != 0 {
                                assert(a1[q] == a[q]);
                            } else if j != l1 {
                                assert(a1[q][j] == a[q][j]);
                            } else {
                                let x = a[0][j].sub_var;
                                let z = x.push(n as usize);
                                let i = choose|i: int| 0 <= i < z.len() && #[trigger] z[i] == k as usize;
                                if i < x.len() {
                                    assert(x[i] == k as usize);
                                    assert(enlace(a, q, j, k));
                                }
                            }
                        }
                        assert forall|q: int, j: int, k: int| #[trigger] enlace(a, q, j, k) implies enlace(a1, q, j, k) by {
                            assert(q == 0);
                            if j != l1 {
                                assert(a1[q][j] == a[q][j]);
                            } else {
                                let x = a[0][j].sub_var;
                                let i = choose|i: int| 0 <= i < x.len() && #[trigger] x[i] == k as usize;
                                assert(x.push(n as usize)[i] == k as usize);
                            }
                        }
                        let x0 = a[0][l1].sub_var;
                        assert(x0.push(n as usize)[x0.len() as int] == n as usize);
                        assert(enlace(a1, 0, l1, n));
                        assert forall|q: int, j: int| 0 <= q < a1.len() && 0 <= j < a1[q].len() implies (#[trigger] a1[q][j]).sub_var.no_duplicates() by {
                            if q == n {
                                assert(a1[q][j] == av1[j]);
                            } else if q != 0 {
                                assert(a1[q] == a[q]);
                            } else if j != l1 {
                                assert(a1[q][j] == a[q][j]);
                            } else {
                                let x = a[0][j].sub_var;
                                assert(!x.contains(n as usize)) by {
                                    if x.contains(n as usize) {
                                        assert(enlace(a, 0, j, n));
                                    }
                                }
                                let z = x.push(n as usize);
                                assert forall|i1: int, i2: int| 0 <= i1 < z.len() && 0 <= i2 < z.len() && i1 != i2
                                    implies #[trigger] z[i1] != #[trigger] z[i2] by {
                                    if i1 < x.len() && i2 < x.len() {
                                    } else if i1 < x.len() {
                                        assert(x[i1] != n as usize);
                                    } else if i2 < x.len() {
                                        assert(x[i2] != n as usize);
                                    }
                                }
                            }
                        }
                        lema_enlace_nuevo(a, a1, 0, l1);
                        assert forall|k: int, i: int| 0 <= k < a1.len() && 0 <= i < a1[k].len() implies (#[trigger] a1[k][i]).profundidad == a1[k][0].profundidad by {
                            if k == n {
                            } else if k != 0 {
                                assert(a1[k] == a[k]);
                            } else {
                                if i != l1 {
                                    assert(a1[k][i] == a[k][i]);
                                }
                                if l1 != 0 {
                                    assert(a1[k][0] == a[k][0]);
                                }
                            }
                        }
                        assert(a1[0][0].profundidad == a[0][0].profundidad);
                        assert forall|k: int| 0 <= k < a1.len() implies (#[trigger] a1[k]).len() > 0 && lee_i16_spec(a1[k][0].profundidad) is Some by {
                            if k < n && k != 0 {
                                assert(a1[k] == a[k]);
                            }
                        }
                        assert forall|k: int| 1 <= k < a1.len() implies sin_enlaces(#[trigger] a1[k], 0) && a1[k][0].profundidad == dec_u(1) by {
                            if k < n {
                                assert(a1[k] == a[k]);
                            }
                        }
                        assert forall|q: int, j: int, k: int| #[trigger] enlace(a1, q, j, k) implies q == 0 && profundidad_de(a1[k]) == profundidad_de(a1[q]) + 1 by {
                            assert(k >= 1);
                            if k < n {
                                assert(a1[k] == a[k]);
                            }
                        }
                    }
                }
            }
        },
        _ => {},
    }
}

} // verus!
