use vstd::prelude::*;

verus! {

// ---------------------------------------------------------------------------
// Characters and strings
// ---------------------------------------------------------------------------

/// The characters of `s`, in order.
pub fn caracteres(s: &str) -> (r: Vec<char>)
    ensures
        r@ == s@,
{
    let mut r: Vec<char> = Vec::new();
    for c in it: s.chars()
        invariant
            it.seq() == s@,
            r@ == it.seq().take(it.index() as int),
    {
        r.push(c);
    }
    r
}

/// Calls std's `String::push`. Claimed: the text afterwards is the text
/// before with `c` added at its end.
#[verifier::external_body]
fn empuja(s: &mut String, c: char)
    ensures
        final(s)@ == old(s)@.push(c),
{
    s.push(c);
}

/// The string made of the characters of `v`, in order.
pub fn cadena(v: &Vec<char>) -> (r: String)
    ensures
        r@ == v@,
{
    let mut r = String::new();
    let mut i: usize = 0;
    while i < v.len()
        invariant
            i <= v.len(),
            r@ == v@.take(i as int),
        decreases v.len() - i,
    {
        empuja(&mut r, v[i]);
        assert(v@.take(i + 1) == v@.take(i as int).push(v@[i as int]));
        i = i + 1;
    }
    assert(v@.take(v.len() as int) == v@);
    r
}

// ---------------------------------------------------------------------------
// Whitespace and trimming
// ---------------------------------------------------------------------------

/// `c` has the Unicode `White_Space` property, which is what `char::is_whitespace`
/// tests, and what `str::trim` and `str::split_whitespace` treat as whitespace.
pub open spec fn es_blanco_spec(c: char) -> bool {
    let n = c as u32;
    ||| 0x09 <= n <= 0x0d
    ||| n == 0x20
    ||| n == 0x85
    ||| n == 0xa0
    ||| n == 0x1680
    ||| 0x2000 <= n <= 0x200a
    ||| n == 0x2028
    ||| n == 0x2029
    ||| n == 0x202f
    ||| n == 0x205f
    ||| n == 0x3000
}

pub fn es_blanco(c: char) -> (b: bool)
    ensures
        b == es_blanco_spec(c),
{
    let n = c as u32;
    (0x09 <= n && n <= 0x0d) || n == 0x20 || n == 0x85 || n == 0xa0 || n == 0x1680 || (0x2000
        <= n && n <= 0x200a) || n == 0x2028 || n == 0x2029 || n == 0x202f || n == 0x205f || n
        == 0x3000
}

/// `s` without its leading whitespace.
pub open spec fn sin_blancos_iniciales(s: Seq<char>) -> Seq<char>
    decreases s.len(),
{
    if s.len() > 0 && es_blanco_spec(s[0]) {
        sin_blancos_iniciales(s.skip(1))
    } else {
        s
    }
}

/// `s` without its trailing whitespace.
pub open spec fn sin_blancos_finales(s: Seq<char>) -> Seq<char>
    decreases s.len(),
{
    if s.len() > 0 && es_blanco_spec(s.last()) {
        sin_blancos_finales(s.drop_last())
    } else {
        s
    }
}

/// `s` without leading and trailing whitespace (`str::trim`).
pub open spec fn recorta_spec(s: Seq<char>) -> Seq<char> {
    sin_blancos_finales(sin_blancos_iniciales(s))
}

pub fn recorta(v: &Vec<char>) -> (r: Vec<char>)
    ensures
        r@ == recorta_spec(v@),
{
    let mut i: usize = 0;
    assert(v@.skip(0) == v@);
    while i < v.len() && es_blanco(v[i])
        invariant
            i <= v.len(),
            sin_blancos_iniciales(v@) == sin_blancos_iniciales(v@.skip(i as int)),
        decreases v.len() - i,
    {
        assert(v@.skip(i as int).skip(1) == v@.skip(i + 1));
        i = i + 1;
    }
    let mut j: usize = v.len();
    assert(v@.subrange(i as int, v.len() as int) == v@.skip(i as int));
    while j > i && es_blanco(v[j - 1])
        invariant
            i <= j <= v.len(),
            sin_blancos_iniciales(v@) == v@.skip(i as int),
            recorta_spec(v@) == sin_blancos_finales(v@.subrange(i as int, j as int)),
        decreases j,
    {
        assert(v@.subrange(i as int, j as int).drop_last() == v@.subrange(i as int, j - 1));
        j = j - 1;
    }
    let mut r: Vec<char> = Vec::new();
    let mut k: usize = i;
    while k < j
        invariant
            i <= k <= j <= v.len(),
            r@ == v@.subrange(i as int, k as int),
        decreases j - k,
    {
        r.push(v[k]);
        assert(v@.subrange(i as int, k + 1) == v@.subrange(i as int, k as int).push(v@[k as int]));
        k = k + 1;
    }
    r
}

// ---------------------------------------------------------------------------
// Replacing one character by a string
// ---------------------------------------------------------------------------

/// `s` with every occurrence of `de` replaced by `por` (`str::replace` with a
/// one-character pattern).
pub open spec fn reemplaza_spec(s: Seq<char>, de: char, por: Seq<char>) -> Seq<char>
    decreases s.len(),
{
    if s.len() == 0 {
        seq![]
    } else {
        reemplaza_spec(s.drop_last(), de, por) + (if s.last() == de {
            por
        } else {
            seq![s.last()]
        })
    }
}

pub fn reemplaza(v: &Vec<char>, de: char, por: &Vec<char>) -> (r: Vec<char>)
    ensures
        r@ == reemplaza_spec(v@, de, por@),
{
    let mut r: Vec<char> = Vec::new();
    let mut i: usize = 0;
    while i < v.len()
        invariant
            i <= v.len(),
            r@ == reemplaza_spec(v@.take(i as int), de, por@),
        decreases v.len() - i,
    {
        assert(v@.take(i + 1).drop_last() == v@.take(i as int));
        if v[i] == de {
            let mut k: usize = 0;
            let ghost r0 = r@;
            while k < por.len()
                invariant
                    k <= por.len(),
                    r@ == r0 + por@.take(k as int),
                decreases por.len() - k,
            {
                r.push(por[k]);
                assert(por@.take(k + 1) == por@.take(k as int).push(por@[k as int]));
                k = k + 1;
            }
            assert(por@.take(por.len() as int) == por@);
        } else {
            r.push(v[i]);
        }
        i = i + 1;
    }
    assert(v@.take(v.len() as int) == v@);
    r
}

/// Replacing a character by a single character keeps the length.
pub proof fn lema_reemplaza_longitud(s: Seq<char>, de: char, por: char)
    ensures
        reemplaza_spec(s, de, seq![por]).len() == s.len(),
    decreases s.len(),
{
    if s.len() > 0 {
        lema_reemplaza_longitud(s.drop_last(), de, por);
    }
}

// ---------------------------------------------------------------------------
// Splitting
// ---------------------------------------------------------------------------

/// `s` begins with `p`.
pub open spec fn empieza_por(s: Seq<char>, p: Seq<char>) -> bool {
    p.len() <= s.len() && s.take(p.len() as int) == p
}

/// `t` with `a` put in front of its first piece.
pub open spec fn prefija(a: Seq<char>, t: Seq<Seq<char>>) -> Seq<Seq<char>> {
    t.update(0, a + t[0])
}

/// The pieces of `s` between the occurrences of `sep`, matched from the left
/// without overlap (`str::split` with a string pattern).
pub open spec fn trozos(s: Seq<char>, sep: Seq<char>) -> Seq<Seq<char>>
    decreases s.len(),
{
    if s.len() == 0 {
        seq![seq![]]
    } else if sep.len() > 0 && empieza_por(s, sep) {
        seq![seq![]] + trozos(s.skip(sep.len() as int), sep)
    } else {
        prefija(seq![s[0]], trozos(s.skip(1), sep))
    }
}

pub proof fn lema_trozos_no_vacio(s: Seq<char>, sep: Seq<char>)
    ensures
        trozos(s, sep).len() >= 1,
    decreases s.len(),
{
    if s.len() > 0 {
        if sep.len() > 0 && empieza_por(s, sep) {
            lema_trozos_no_vacio(s.skip(sep.len() as int), sep);
        } else {
            lema_trozos_no_vacio(s.skip(1), sep);
        }
    }
}

/// The views of a sequence of character vectors.
pub open spec fn vistas(v: Seq<Vec<char>>) -> Seq<Seq<char>> {
    v.map_values(|x: Vec<char>| x@)
}

/// `v` holds `p` at position `i`.
fn coincide_en(v: &Vec<char>, i: usize, p: &Vec<char>) -> (b: bool)
    requires
        i <= v.len(),
    ensures
        b == empieza_por(v@.skip(i as int), p@),
{
    if v.len() - i < p.len() {
        return false;
    }
    let mut k: usize = 0;
    while k < p.len()
        invariant
            k <= p.len(),
            i + p.len() <= v.len(),
            forall|m: int| 0 <= m < k ==> v@[i + m] == p@[m],
        decreases p.len() - k,
    {
        if v[i + k] != p[k] {
            assert(v@.skip(i as int).take(p.len() as int)[k as int] != p@[k as int]);
            return false;
        }
        k = k + 1;
    }
    assert(v@.skip(i as int).take(p.len() as int) =~= p@);
    true
}

/// The pieces of `v` between the occurrences of `sep` (`str::split`).
pub fn divide(v: &Vec<char>, sep: &Vec<char>) -> (r: Vec<Vec<char>>)
    requires
        sep.len() > 0,
    ensures
        vistas(r@) == trozos(v@, sep@),
{
    let mut piezas: Vec<Vec<char>> = Vec::new();
    let mut actual: Vec<char> = Vec::new();
    let mut i: usize = 0;
    assert(v@.skip(0) == v@);
    proof {
        lema_trozos_no_vacio(v@, sep@);
        assert(prefija(seq![], trozos(v@, sep@)) =~= trozos(v@, sep@));
    }
    while i < v.len()
        invariant
            i <= v.len(),
            sep.len() > 0,
            trozos(v@, sep@) == vistas(piezas@) + prefija(actual@, trozos(v@.skip(i as int), sep@)),
        decreases v.len() - i,
    {
        let ghost resto = v@.skip(i as int);
        proof {
            lema_trozos_no_vacio(resto, sep@);
        }
        if coincide_en(v, i, sep) {
            let ghost sig = v@.skip(i + sep.len());
            proof {
                assert(resto.skip(sep.len() as int) == sig);
                lema_trozos_no_vacio(sig, sep@);
                assert(prefija(seq![], trozos(sig, sep@)) =~= trozos(sig, sep@));
                assert(vistas(piezas@.push(actual)) =~= vistas(piezas@).push(actual@));
                assert(prefija(actual@, trozos(resto, sep@)) =~= seq![actual@] + trozos(sig, sep@));
            }
            piezas.push(actual);
            actual = Vec::new();
            i = i + sep.len();
        } else {
            let ghost sig = v@.skip(i + 1);
            proof {
                assert(resto.skip(1) == sig);
                lema_trozos_no_vacio(sig, sep@);
                assert(resto[0] == v@[i as int]);
                assert(trozos(resto, sep@) == prefija(seq![v@[i as int]], trozos(sig, sep@)));
                assert(actual@ + (seq![v@[i as int]] + trozos(sig, sep@)[0]) =~= actual@.push(v@[i as int]) + trozos(sig, sep@)[0]);
                assert(prefija(actual@, trozos(resto, sep@)) =~= prefija(
                    actual@.push(v@[i as int]),
                    trozos(sig, sep@),
                ));
            }
            actual.push(v[i]);
            i = i + 1;
        }
    }
    proof {
        assert(v@.skip(i as int) =~= Seq::<char>::empty());
        assert(vistas(piezas@.push(actual)) =~= vistas(piezas@).push(actual@));
        assert(prefija(actual@, seq![seq![]]) =~= seq![actual@]);
    }
    piezas.push(actual);
    piezas
}

/// The pieces of `s` between its whitespace characters.
pub open spec fn trozos_blancos(s: Seq<char>) -> Seq<Seq<char>>
    decreases s.len(),
{
    if s.len() == 0 {
        seq![seq![]]
    } else if es_blanco_spec(s[0]) {
        seq![seq![]] + trozos_blancos(s.skip(1))
    } else {
        prefija(seq![s[0]], trozos_blancos(s.skip(1)))
    }
}

pub proof fn lema_trozos_blancos_no_vacio(s: Seq<char>)
    ensures
        trozos_blancos(s).len() >= 1,
    decreases s.len(),
{
    if s.len() > 0 {
        lema_trozos_blancos_no_vacio(s.skip(1));
    }
}

/// The pieces of `t` that are not empty, in order.
pub open spec fn no_vacios(t: Seq<Seq<char>>) -> Seq<Seq<char>>
    decreases t.len(),
{
    if t.len() == 0 {
        seq![]
    } else {
        no_vacios(t.drop_last()) + (if t.last().len() > 0 {
            seq![t.last()]
        } else {
            seq![]
        })
    }
}

/// The words of `s`: its maximal runs of characters that are not whitespace
/// (`str::split_whitespace`).
pub open spec fn palabras_spec(s: Seq<char>) -> Seq<Seq<char>> {
    no_vacios(trozos_blancos(s))
}

pub fn palabras(v: &Vec<char>) -> (r: Vec<Vec<char>>)
    ensures
        vistas(r@) == palabras_spec(v@),
{
    let mut piezas: Vec<Vec<char>> = Vec::new();
    let mut actual: Vec<char> = Vec::new();
    let mut i: usize = 0;
    assert(v@.skip(0) == v@);
    proof {
        lema_trozos_blancos_no_vacio(v@);
        assert(prefija(seq![], trozos_blancos(v@)) =~= trozos_blancos(v@));
    }
    while i < v.len()
        invariant
            i <= v.len(),
            trozos_blancos(v@) == vistas(piezas@) + prefija(actual@, trozos_blancos(v@.skip(i as int))),
        decreases v.len() - i,
    {
        let ghost resto = v@.skip(i as int);
        let ghost sig = v@.skip(i + 1);
        proof {
            assert(resto.skip(1) == sig);
            lema_trozos_blancos_no_vacio(sig);
        }
        if es_blanco(v[i]) {
            proof {
                assert(prefija(seq![], trozos_blancos(sig)) =~= trozos_blancos(sig));
                assert(vistas(piezas@.push(actual)) =~= vistas(piezas@).push(actual@));
                assert(prefija(actual@, trozos_blancos(resto)) =~= seq![actual@] + trozos_blancos(sig));
            }
            piezas.push(actual);
            actual = Vec::new();
        } else {
            proof {
                assert(resto[0] == v@[i as int]);
                assert(trozos_blancos(resto) == prefija(seq![v@[i as int]], trozos_blancos(sig)));
                assert(actual@ + (seq![v@[i as int]] + trozos_blancos(sig)[0]) =~= actual@.push(v@[i as int]) + trozos_blancos(sig)[0]);
                assert(prefija(actual@, trozos_blancos(resto)) =~= prefija(
                    actual@.push(v@[i as int]),
                    trozos_blancos(sig),
                ));
            }
            actual.push(v[i]);
        }
        i = i + 1;
    }
    proof {
        assert(v@.skip(i as int) =~= Seq::<char>::empty());
        assert(vistas(piezas@.push(actual)) =~= vistas(piezas@).push(actual@));
        assert(prefija(actual@, seq![seq![]]) =~= seq![actual@]);
    }
    piezas.push(actual);
    let ghost todos = vistas(piezas@);
    assert(todos == trozos_blancos(v@));
    let mut r: Vec<Vec<char>> = Vec::new();
    let mut k: usize = 0;
    while k < piezas.len()
        invariant
            k <= piezas.len(),
            todos == vistas(piezas@),
            vistas(r@) == no_vacios(todos.take(k as int)),
        decreases piezas.len() - k,
    {
        assert(todos.take(k + 1).drop_last() =~= todos.take(k as int));
        if piezas[k].len() > 0 {
            let p = copia_caracteres(&piezas[k]);
            assert(vistas(r@.push(p)) =~= vistas(r@).push(p@));
            r.push(p);
        }
        k = k + 1;
    }
    assert(todos.take(piezas.len() as int) =~= todos);
    r
}

/// A copy of `v`.
pub fn copia_caracteres(v: &Vec<char>) -> (r: Vec<char>)
    ensures
        r@ == v@,
{
    let mut r: Vec<char> = Vec::new();
    let mut i: usize = 0;
    while i < v.len()
        invariant
            i <= v.len(),
            r@ == v@.take(i as int),
        decreases v.len() - i,
    {
        r.push(v[i]);
        assert(v@.take(i + 1) == v@.take(i as int).push(v@[i as int]));
        i = i + 1;
    }
    assert(v@.take(v.len() as int) == v@);
    r
}

// ---------------------------------------------------------------------------
// Searching
// ---------------------------------------------------------------------------

/// The index of the first occurrence of `c` in `s` (`str::find` with a
/// one-character pattern, counted in characters).
pub open spec fn posicion(s: Seq<char>, c: char) -> Option<int>
    decreases s.len(),
{
    if s.len() == 0 {
        None
    } else if s[0] == c {
        Some(0)
    } else {
        match posicion(s.skip(1), c) {
            Some(p) => Some(p + 1),
            None => None,
        }
    }
}

pub fn busca(v: &Vec<char>, c: char) -> (r: Option<usize>)
    ensures
        r matches Some(p) ==> posicion(v@, c) == Some(p as int),
        r is None ==> posicion(v@, c) is None,
{
    let mut i: usize = 0;
    assert(v@.skip(0) == v@);
    while i < v.len()
        invariant
            i <= v.len(),
            posicion(v@, c) == (match posicion(v@.skip(i as int), c) {
                Some(p) => Some(p + i),
                None => None,
            }),
        decreases v.len() - i,
    {
        if v[i] == c {
            return Some(i);
        }
        assert(v@.skip(i as int).skip(1) == v@.skip(i + 1));
        i = i + 1;
    }
    assert(v@.skip(i as int) =~= Seq::<char>::empty());
    None
}

pub proof fn lema_posicion(s: Seq<char>, c: char)
    ensures
        posicion(s, c) matches Some(p) ==> 0 <= p < s.len() && s[p] == c,
    decreases s.len(),
{
    if s.len() > 0 && s[0] != c {
        lema_posicion(s.skip(1), c);
    }
}

/// The characters of `v` from position `a` up to, not including, `b`.
pub fn subcadena(v: &Vec<char>, a: usize, b: usize) -> (r: Vec<char>)
    requires
        a <= b <= v.len(),
    ensures
        r@ == v@.subrange(a as int, b as int),
{
    let mut r: Vec<char> = Vec::new();
    let mut k: usize = a;
    while k < b
        invariant
            a <= k <= b <= v.len(),
            r@ == v@.subrange(a as int, k as int),
        decreases b - k,
    {
        r.push(v[k]);
        assert(v@.subrange(a as int, k + 1) == v@.subrange(a as int, k as int).push(v@[k as int]));
        k = k + 1;
    }
    r
}

/// `s` begins with the character `c`.
pub open spec fn empieza_con(s: Seq<char>, c: char) -> bool {
    s.len() > 0 && s[0] == c
}

} // verus!
