use vstd::prelude::*;

verus! {

/// The decimal digit character for `d` (for `d` from 0 to 9).
pub open spec fn digito_spec(d: int) -> char {
    if d == 0 {
        '0'
    } else if d == 1 {
        '1'
    } else if d == 2 {
        '2'
    } else if d == 3 {
        '3'
    } else if d == 4 {
        '4'
    } else if d == 5 {
        '5'
    } else if d == 6 {
        '6'
    } else if d == 7 {
        '7'
    } else if d == 8 {
        '8'
    } else {
        '9'
    }
}

fn digito(d: u64) -> (c: char)
    requires
        d < 10,
    ensures
        c == digito_spec(d as int),
{
    if d == 0 {
        '0'
    } else if d == 1 {
        '1'
    } else if d == 2 {
        '2'
    } else if d == 3 {
        '3'
    } else if d == 4 {
        '4'
    } else if d == 5 {
        '5'
    } else if d == 6 {
        '6'
    } else if d == 7 {
        '7'
    } else if d == 8 {
        '8'
    } else {
        '9'
    }
}

/// The decimal notation of `n`, without leading zeros.
pub open spec fn decimal(n: nat) -> Seq<char>
    decreases n,
{
    if n < 10 {
        seq![digito_spec(n as int)]
    } else {
        decimal(n / 10).push(digito_spec((n % 10) as int))
    }
}

/// The decimal notation of `i`, with a leading `-` when it is negative (what
/// `to_string` gives for an integer).
pub open spec fn decimal_con_signo(i: int) -> Seq<char> {
    if i < 0 {
        seq!['-'] + decimal((-i) as nat)
    } else {
        decimal(i as nat)
    }
}

pub fn texto_natural(n: u64) -> (r: Vec<char>)
    ensures
        r@ == decimal(n as nat),
    decreases n,
{
    if n < 10 {
        let mut r: Vec<char> = Vec::new();
        r.push(digito(n));
        assert(r@ =~= seq![digito_spec(n as int)]);
        r
    } else {
        let mut r = texto_natural(n / 10);
        r.push(digito(n % 10));
        r
    }
}

pub fn texto_entero(i: i64) -> (r: Vec<char>)
    requires
        i > i64::MIN,
    ensures
        r@ == decimal_con_signo(i as int),
{
    if i < 0 {
        let d = texto_natural((-i) as u64);
        let mut r: Vec<char> = Vec::new();
        r.push('-');
        let mut k: usize = 0;
        while k < d.len()
            invariant
                k <= d.len(),
                r@ == seq!['-'] + d@.take(k as int),
            decreases d.len() - k,
        {
            r.push(d[k]);
            assert(d@.take(k + 1) == d@.take(k as int).push(d@[k as int]));
            k = k + 1;
        }
        assert(d@.take(d.len() as int) == d@);
        r
    } else {
        texto_natural(i as u64)
    }
}

// ---------------------------------------------------------------------------
// Reading a decimal `i16`
// ---------------------------------------------------------------------------

pub open spec fn es_digito(c: char) -> bool {
    '0' <= c && c <= '9'
}

pub open spec fn todos_digitos(d: Seq<char>) -> bool {
    forall|k: int| 0 <= k < d.len() ==> es_digito(#[trigger] d[k])
}

/// The value of a string of decimal digits.
pub open spec fn valor_digitos(d: Seq<char>) -> int
    decreases d.len(),
{
    if d.len() == 0 {
        0
    } else {
        valor_digitos(d.drop_last()) * 10 + (d.last() as int - '0' as int)
    }
}

/// What `str::parse::<i16>` gives: an optional `+` or `-` followed by at least
/// one decimal digit and nothing else, with a value in the range of `i16`.
pub open spec fn lee_i16_spec(s: Seq<char>) -> Option<int> {
    let con_signo = s.len() > 0 && (s[0] == '+' || s[0] == '-');
    let d = if con_signo {
        s.skip(1)
    } else {
        s
    };
    if d.len() == 0 || !todos_digitos(d) {
        None
    } else {
        let v = if con_signo && s[0] == '-' {
            -valor_digitos(d)
        } else {
            valor_digitos(d)
        };
        if i16::MIN <= v <= i16::MAX {
            Some(v)
        } else {
            None
        }
    }
}

proof fn lema_valor_crece(d: Seq<char>, k: int)
    requires
        todos_digitos(d),
        0 <= k <= d.len(),
    ensures
        0 <= valor_digitos(d.take(k)) <= valor_digitos(d),
    decreases d.len(),
{
    if d.len() > 0 {
        let p = d.drop_last();
        assert(todos_digitos(p)) by {
            assert forall|m: int| 0 <= m < p.len() implies es_digito(#[trigger] p[m]) by {
                assert(p[m] == d[m]);
            }
        }
        if k == d.len() {
            assert(d.take(k) =~= d);
            lema_valor_crece(p, p.len() as int);
            assert(p.take(p.len() as int) =~= p);
        } else {
            assert(d.take(k) =~= p.take(k));
            lema_valor_crece(p, k);
            lema_valor_crece(p, p.len() as int);
            assert(p.take(p.len() as int) =~= p);
            assert(es_digito(d[d.len() - 1]));
        }
    } else {
        assert(d.take(k) =~= d);
    }
}

pub fn lee_i16(v: &Vec<char>) -> (r: Option<i16>)
    ensures
        r matches Some(x) ==> lee_i16_spec(v@) == Some(x as int),
        r is None ==> lee_i16_spec(v@) is None,
{
    let con_signo = v.len() > 0 && (v[0] == '+' || v[0] == '-');
    let negativo = con_signo && v[0] == '-';
    let ini: usize = if con_signo {
        1
    } else {
        0
    };
    let ghost d = if con_signo {
        v@.skip(1)
    } else {
        v@
    };
    assert(d =~= v@.skip(ini as int));
    if ini >= v.len() {
        return None;
    }
    let mut acc: i32 = 0;
    let mut i: usize = ini;
    assert(d.take(0) =~= Seq::<char>::empty());
    while i < v.len()
        invariant
            ini <= i <= v.len(),
            d =~= v@.skip(ini as int),
            con_signo == (v@.len() > 0 && (v@[0] == '+' || v@[0] == '-')),
            ini == (if con_signo { 1usize } else { 0usize }),
            d == (if con_signo { v@.skip(1) } else { v@ }),
            todos_digitos(d.take(i - ini)),
            acc as int == valor_digitos(d.take(i - ini)),
            0 <= acc <= 32768,
        decreases v.len() - i,
    {
        let c = v[i];
        if !('0' <= c && c <= '9') {
            assert(d[i - ini] == c);
            assert(!todos_digitos(d)) by {
                assert(!es_digito(d[i - ini]));
            }
            return None;
        }
        let ghost t = d.take(i + 1 - ini);
        assert(t.drop_last() =~= d.take(i - ini));
        assert(t.last() == c);
        assert(todos_digitos(t)) by {
            assert forall|m: int| 0 <= m < t.len() implies es_digito(#[trigger] t[m]) by {
                if m < t.len() - 1 {
                    assert(t[m] == d.take(i - ini)[m]);
                }
            }
        }
        let nuevo: i32 = acc * 10 + (c as u32 - '0' as u32) as i32;
        assert(valor_digitos(t) == nuevo);
        if nuevo > 32768 {
            proof {
                if todos_digitos(d) {
                    lema_valor_crece(d, (i + 1 - ini) as int);
                }
            }
            return None;
        }
        acc = nuevo;
        i = i + 1;
    }
    assert(d.take(i - ini) =~= d);
    if negativo {
        Some((-acc) as i16)
    } else if acc <= 32767 {
        Some(acc as i16)
    } else {
        None
    }
}

proof fn lema_digito(d: int)
    requires
        0 <= d < 10,
    ensures
        digito_spec(d) as int - '0' as int == d,
        es_digito(digito_spec(d)),
{
}

pub(crate) proof fn lema_decimal_digitos(n: nat)
    ensures
        decimal(n).len() >= 1,
        todos_digitos(decimal(n)),
        valor_digitos(decimal(n)) == n,
    decreases n,
{
    lema_digito((n % 10) as int);
    if n < 10 {
        lema_digito(n as int);
        assert(decimal(n).drop_last() =~= Seq::<char>::empty());
        assert(valor_digitos(Seq::<char>::empty()) == 0);
        assert(valor_digitos(decimal(n)) == valor_digitos(decimal(n).drop_last()) * 10 + (decimal(
            n,
        ).last() as int - '0' as int));
    } else {
        lema_decimal_digitos(n / 10);
        assert(n == (n / 10) * 10 + n % 10);
        let d = decimal(n);
        assert(d.drop_last() =~= decimal(n / 10));
        assert(d.last() == digito_spec((n % 10) as int));
        assert(valor_digitos(d) == valor_digitos(d.drop_last()) * 10 + (d.last() as int - '0' as int));
        assert forall|k: int| 0 <= k < d.len() implies es_digito(#[trigger] d[k]) by {
            if k < d.len() - 1 {
                assert(d[k] == decimal(n / 10)[k]);
            }
        }
    }
}

/// Reading back the decimal notation of an `i16` gives the same number:
/// `x.to_string().parse::<i16>() == Ok(x)`.
pub proof fn ley_lee_i16_decimal(x: i16)
    ensures
        lee_i16_spec(decimal_con_signo(x as int)) == Some(x as int),
{
    if x < 0 {
        let m = (-(x as int)) as nat;
        lema_decimal_digitos(m);
        let s = decimal_con_signo(x as int);
        assert(s.skip(1) =~= decimal(m));
    } else {
        lema_decimal_digitos(x as nat);
        let d = decimal(x as nat);
        assert(es_digito(d[0]));
    }
}

} // verus!
