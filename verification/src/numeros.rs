//! Lectura de números escritos en texto: tokens numéricos y su valor decimal
//! exacto (parte entera y parte fraccionaria como dígitos).

use crate::texto::{desde, digito, es_digito};
use vstd::prelude::*;

verus! {

/// Un número decimal escrito en base 10: dígitos de la parte entera y de la
/// parte fraccionaria, cada uno con valor 0–9.
pub struct Decimal {
    pub entero: Vec<u8>,
    pub fraccion: Vec<u8>,
}

impl View for Decimal {
    type V = (Seq<u8>, Seq<u8>);

    open spec fn view(&self) -> (Seq<u8>, Seq<u8>) {
        (self.entero@, self.fraccion@)
    }
}

/// Clases de caracteres que forman tokens numéricos.
#[derive(Clone, Copy, PartialEq, Eq, Structural)]
pub enum Clase {
    /// Dígitos, `.` y `,`.
    Numerico,
    /// Dígitos y `.`.
    DigitoPunto,
    /// Sólo dígitos.
    Digito,
}

pub open spec fn es_de(c: char, k: Clase) -> bool {
    match k {
        Clase::Numerico => es_digito(c) || c == '.' || c == ',',
        Clase::DigitoPunto => es_digito(c) || c == '.',
        Clase::Digito => es_digito(c),
    }
}

pub fn de_clase(c: char, k: Clase) -> (r: bool)
    ensures
        r == es_de(c, k),
{
    match k {
        Clase::Numerico => digito(c) || c == '.' || c == ',',
        Clase::DigitoPunto => digito(c) || c == '.',
        Clase::Digito => digito(c),
    }
}

/// Primera posición desde `i` con un carácter de la clase (o el largo).
pub open spec fn primer_de(s: Seq<char>, i: int, k: Clase) -> int
    decreases s.len() - i,
{
    if i < 0 || i >= s.len() {
        s.len() as int
    } else if es_de(s[i], k) {
        i
    } else {
        primer_de(s, i + 1, k)
    }
}

/// Primera posición desde `i` con un carácter fuera de la clase (o el largo).
pub open spec fn fin_de(s: Seq<char>, i: int, k: Clase) -> int
    decreases s.len() - i,
{
    if i < 0 || i >= s.len() {
        s.len() as int
    } else if !es_de(s[i], k) {
        i
    } else {
        fin_de(s, i + 1, k)
    }
}

/// Última posición menor que `j` con un carácter de la clase.
pub open spec fn ultimo_antes_de(s: Seq<char>, j: int, k: Clase) -> Option<int>
    decreases j,
{
    if j <= 0 || j > s.len() {
        None
    } else if es_de(s[j - 1], k) {
        Some(j - 1)
    } else {
        ultimo_antes_de(s, j - 1, k)
    }
}

/// Comienzo del tramo de la clase que termina (exclusivo) en `j`.
pub open spec fn inicio_de(s: Seq<char>, j: int, k: Clase) -> int
    decreases j,
{
    if j <= 0 || j > s.len() {
        0
    } else if !es_de(s[j - 1], k) {
        j
    } else {
        inicio_de(s, j - 1, k)
    }
}

pub proof fn lema_primer_de(s: Seq<char>, i: int, k: Clase)
    requires
        0 <= i <= s.len(),
    ensures
        i <= primer_de(s, i, k) <= s.len(),
        primer_de(s, i, k) < s.len() ==> es_de(s[primer_de(s, i, k)], k),
    decreases s.len() - i,
{
    if i < s.len() && !es_de(s[i], k) {
        lema_primer_de(s, i + 1, k);
    }
}

pub proof fn lema_fin_de(s: Seq<char>, i: int, k: Clase)
    requires
        0 <= i <= s.len(),
    ensures
        i <= fin_de(s, i, k) <= s.len(),
        forall|j: int| i <= j < fin_de(s, i, k) ==> es_de(#[trigger] s[j], k),
    decreases s.len() - i,
{
    if i < s.len() && es_de(s[i], k) {
        lema_fin_de(s, i + 1, k);
    }
}

pub proof fn lema_ultimo_antes_de(s: Seq<char>, j: int, k: Clase)
    requires
        0 <= j <= s.len(),
    ensures
        ultimo_antes_de(s, j, k) matches Some(x) ==> 0 <= x < j && es_de(s[x], k),
    decreases j,
{
    if j > 0 && !es_de(s[j - 1], k) {
        lema_ultimo_antes_de(s, j - 1, k);
    }
}

pub proof fn lema_inicio_de(s: Seq<char>, j: int, k: Clase)
    requires
        0 <= j <= s.len(),
    ensures
        0 <= inicio_de(s, j, k) <= j,
        forall|x: int| inicio_de(s, j, k) <= x < j ==> es_de(#[trigger] s[x], k),
    decreases j,
{
    if j > 0 && es_de(s[j - 1], k) {
        lema_inicio_de(s, j - 1, k);
    }
}

pub fn primer_de_exec(s: &Vec<char>, i: usize, k: Clase) -> (r: usize)
    requires
        i <= s.len(),
    ensures
        r == primer_de(s@, i as int, k),
{
    let mut j = i;
    while j < s.len() && !de_clase(s[j], k)
        invariant
            i <= j <= s.len(),
            primer_de(s@, i as int, k) == primer_de(s@, j as int, k),
        decreases s.len() - j,
    {
        j = j + 1;
    }
    j
}

pub fn fin_de_exec(s: &Vec<char>, i: usize, k: Clase) -> (r: usize)
    requires
        i <= s.len(),
    ensures
        r == fin_de(s@, i as int, k),
{
    let mut j = i;
    while j < s.len() && de_clase(s[j], k)
        invariant
            i <= j <= s.len(),
            fin_de(s@, i as int, k) == fin_de(s@, j as int, k),
        decreases s.len() - j,
    {
        j = j + 1;
    }
    j
}

pub fn ultimo_antes_de_exec(s: &Vec<char>, j: usize, k: Clase) -> (r: Option<usize>)
    requires
        j <= s.len(),
    ensures
        match r {
            Some(x) => ultimo_antes_de(s@, j as int, k) == Some(x as int),
            None => ultimo_antes_de(s@, j as int, k) is None,
        },
{
    let mut b = j;
    while b > 0
        invariant
            b <= j <= s.len(),
            ultimo_antes_de(s@, j as int, k) == ultimo_antes_de(s@, b as int, k),
        decreases b,
    {
        if de_clase(s[b - 1], k) {
            return Some(b - 1);
        }
        b = b - 1;
    }
    None
}

pub fn inicio_de_exec(s: &Vec<char>, j: usize, k: Clase) -> (r: usize)
    requires
        j <= s.len(),
    ensures
        r == inicio_de(s@, j as int, k),
{
    let mut b = j;
    while b > 0 && de_clase(s[b - 1], k)
        invariant
            b <= j <= s.len(),
            inicio_de(s@, j as int, k) == inicio_de(s@, b as int, k),
        decreases b,
    {
        b = b - 1;
    }
    b
}

/// Copia de `s[a..b]`.
pub fn tramo(s: &Vec<char>, a: usize, b: usize) -> (r: Vec<char>)
    requires
        a <= b <= s.len(),
    ensures
        r@ == s@.subrange(a as int, b as int),
{
    let mut r: Vec<char> = Vec::new();
    let mut k = a;
    while k < b
        invariant
            a <= k <= b <= s.len(),
            r@ =~= s@.subrange(a as int, k as int),
        decreases b - k,
    {
        r.push(s[k]);
        k = k + 1;
    }
    r
}

// ── Valor decimal ────────────────────────────────────────────────────────────

/// Separador decimal: `.` o `,` (la coma se lee como punto).
pub open spec fn es_separador(c: char) -> bool {
    c == '.' || c == ','
}

/// Primera posición desde `i` con un separador (o el largo).
pub open spec fn primer_separador(t: Seq<char>, i: int) -> int
    decreases t.len() - i,
{
    if i < 0 || i >= t.len() {
        t.len() as int
    } else if es_separador(t[i]) {
        i
    } else {
        primer_separador(t, i + 1)
    }
}

/// Valores (0–9) de una secuencia de dígitos.
pub open spec fn valores(t: Seq<char>) -> Seq<u8> {
    t.map_values(|c: char| (c as u32 - '0' as u32) as u8)
}

/// Valor decimal de un token de dígitos y separadores, como lo lee
/// `f64::from_str` después de cambiar la coma por punto: a lo sumo un
/// separador y al menos un dígito; si no, no hay valor.
pub open spec fn decimal_de(t: Seq<char>) -> Option<(Seq<u8>, Seq<u8>)> {
    let d = primer_separador(t, 0);
    if d >= t.len() {
        if t.len() > 0 {
            Some((valores(t), Seq::empty()))
        } else {
            None
        }
    } else {
        let f = t.skip(d + 1);
        if primer_separador(f, 0) < f.len() {
            None
        } else if d == 0 && f.len() == 0 {
            None
        } else {
            Some((valores(t.take(d)), valores(f)))
        }
    }
}

proof fn lema_primer_separador(t: Seq<char>, i: int)
    requires
        0 <= i <= t.len(),
    ensures
        i <= primer_separador(t, i) <= t.len(),
        forall|j: int| i <= j < primer_separador(t, i) ==> !es_separador(#[trigger] t[j]),
    decreases t.len() - i,
{
    if i < t.len() && !es_separador(t[i]) {
        lema_primer_separador(t, i + 1);
    }
}

fn separador_exec(t: &Vec<char>, i: usize) -> (r: usize)
    requires
        i <= t.len(),
    ensures
        r == primer_separador(t@, i as int),
{
    let mut j = i;
    while j < t.len() && !(t[j] == '.' || t[j] == ',')
        invariant
            i <= j <= t.len(),
            primer_separador(t@, i as int) == primer_separador(t@, j as int),
        decreases t.len() - j,
    {
        j = j + 1;
    }
    j
}

fn valores_exec(t: &Vec<char>, a: usize, b: usize) -> (r: Vec<u8>)
    requires
        a <= b <= t.len(),
        forall|i: int| a <= i < b ==> es_digito(#[trigger] t@[i]),
    ensures
        r@ == valores(t@.subrange(a as int, b as int)),
{
    let mut r: Vec<u8> = Vec::new();
    let mut k = a;
    while k < b
        invariant
            a <= k <= b <= t.len(),
            forall|i: int| a <= i < b ==> es_digito(#[trigger] t@[i]),
            r@ =~= valores(t@.subrange(a as int, k as int)),
        decreases b - k,
    {
        let c = t[k];
        assert(es_digito(t@[k as int]));
        let v = (c as u32 - '0' as u32) as u8;
        r.push(v);
        k = k + 1;
    }
    r
}

/// Valor decimal de un token (ver `decimal_de`).
pub fn decimal_exec(t: &Vec<char>) -> (r: Option<Decimal>)
    requires
        forall|i: int| 0 <= i < t.len() ==> es_de(#[trigger] t@[i], Clase::Numerico),
    ensures
        match r {
            Some(d) => decimal_de(t@) == Some(d@),
            None => decimal_de(t@) is None,
        },
{
    let d = separador_exec(t, 0);
    proof {
        lema_primer_separador(t@, 0);
    }
    if d >= t.len() {
        if t.len() > 0 {
            let e = valores_exec(t, 0, t.len());
            assert(t@.subrange(0, t@.len() as int) =~= t@);
            let v = Vec::new();
            return Some(Decimal { entero: e, fraccion: v });
        } else {
            return None;
        }
    }
    let f = desde(t, d + 1);
    if separador_exec(&f, 0) < f.len() {
        return None;
    }
    proof {
        lema_primer_separador(f@, 0);
        assert forall|i: int| d + 1 <= i < t.len() implies es_digito(#[trigger] t@[i]) by {
            assert(t@[i] == f@[i - d - 1]);
        }
    }
    if d == 0 && f.len() == 0 {
        return None;
    }
    let e = valores_exec(t, 0, d);
    let fr = valores_exec(t, d + 1, t.len());
    assert(t@.subrange(0, d as int) =~= t@.take(d as int));
    assert(t@.subrange(d + 1, t@.len() as int) =~= t@.skip(d + 1));
    Some(Decimal { entero: e, fraccion: fr })
}

// ── Tokens ───────────────────────────────────────────────────────────────────

/// Primer tramo de dígitos, puntos y comas de `s` (vacío si no hay).
pub open spec fn primer_token(s: Seq<char>) -> Seq<char> {
    let a = primer_de(s, 0, Clase::Numerico);
    s.subrange(a, fin_de(s, a, Clase::Numerico))
}

/// El primer número de `s`: el primer tramo de dígitos, puntos y comas leído
/// como decimal (`None` cuando ese tramo no es un número válido o no existe).
pub open spec fn primer_numero(s: Seq<char>) -> Option<(Seq<u8>, Seq<u8>)> {
    decimal_de(primer_token(s))
}

pub fn primer_numero_exec(s: &Vec<char>) -> (r: Option<Decimal>)
    ensures
        match r {
            Some(d) => primer_numero(s@) == Some(d@),
            None => primer_numero(s@) is None,
        },
{
    let a = primer_de_exec(s, 0, Clase::Numerico);
    proof {
        lema_primer_de(s@, 0, Clase::Numerico);
    }
    let b = fin_de_exec(s, a, Clase::Numerico);
    proof {
        lema_fin_de(s@, a as int, Clase::Numerico);
    }
    let t = tramo(s, a, b);
    decimal_exec(&t)
}

/// El número que termina justo antes de `pos`: el último tramo de dígitos y
/// puntos de `s[..pos]`, leído como decimal.
pub open spec fn numero_antes(s: Seq<char>, pos: int) -> Option<(Seq<u8>, Seq<u8>)> {
    match ultimo_antes_de(s, pos, Clase::DigitoPunto) {
        Some(j) => decimal_de(s.subrange(inicio_de(s, j + 1, Clase::DigitoPunto), j + 1)),
        None => None,
    }
}

pub fn numero_antes_exec(s: &Vec<char>, pos: usize) -> (r: Option<Decimal>)
    requires
        pos <= s.len(),
    ensures
        match r {
            Some(d) => numero_antes(s@, pos as int) == Some(d@),
            None => numero_antes(s@, pos as int) is None,
        },
{
    proof {
        lema_ultimo_antes_de(s@, pos as int, Clase::DigitoPunto);
    }
    match ultimo_antes_de_exec(s, pos, Clase::DigitoPunto) {
        Some(j) => {
            let a = inicio_de_exec(s, j + 1, Clase::DigitoPunto);
            proof {
                lema_inicio_de(s@, j + 1, Clase::DigitoPunto);
            }
            let t = tramo(s, a, j + 1);
            decimal_exec(&t)
        },
        None => None,
    }
}

/// Valor entero de una secuencia de dígitos.
pub open spec fn valor_digitos(t: Seq<char>) -> int
    decreases t.len(),
{
    if t.len() == 0 {
        0
    } else {
        valor_digitos(t.drop_last()) * 10 + (t.last() as int - '0' as int)
    }
}

/// El primer tramo de dígitos de `s`, si existe.
pub open spec fn primeros_digitos(s: Seq<char>) -> Option<Seq<char>> {
    let a = primer_de(s, 0, Clase::Digito);
    if a >= s.len() {
        None
    } else {
        Some(s.subrange(a, fin_de(s, a, Clase::Digito)))
    }
}

proof fn lema_valor_no_negativo(t: Seq<char>)
    requires
        forall|i: int| 0 <= i < t.len() ==> es_digito(#[trigger] t[i]),
    ensures
        valor_digitos(t) >= 0,
    decreases t.len(),
{
    if t.len() > 0 {
        assert(forall|i: int| 0 <= i < t.drop_last().len() ==> es_digito(#[trigger] t.drop_last()[i]) <== es_digito(t[i]));
        lema_valor_no_negativo(t.drop_last());
    }
}

/// Si el valor de los dígitos `t` supera `tope`.
pub fn supera(t: &Vec<char>, tope: u64) -> (r: bool)
    requires
        forall|i: int| 0 <= i < t.len() ==> es_digito(#[trigger] t@[i]),
        tope < 0x1000_0000_0000_0000,
    ensures
        r == (valor_digitos(t@) > tope),
{
    // `v` es el valor del prefijo, recortado en `tope + 1` (de ahí en más
    // ningún dígito lo hace bajar).
    let mut v: u64 = 0;
    let mut k: usize = 0;
    while k < t.len()
        invariant
            k <= t.len(),
            tope < 0x1000_0000_0000_0000,
            forall|i: int| 0 <= i < t.len() ==> es_digito(#[trigger] t@[i]),
            v <= tope + 1,
            v == (if valor_digitos(t@.take(k as int)) > tope {
                tope + 1
            } else {
                valor_digitos(t@.take(k as int))
            }),
        decreases t.len() - k,
    {
        let ghost pre = t@.take(k as int);
        assert(t@.take(k + 1).drop_last() =~= pre);
        proof {
            assert forall|i: int| 0 <= i < pre.len() implies es_digito(#[trigger] pre[i]) by {
                assert(pre[i] == t@[i]);
            }
            lema_valor_no_negativo(pre);
        }
        let d = (t[k] as u32 - '0' as u32) as u64;
        let n = v * 10 + d;
        if n > tope {
            v = tope + 1;
        } else {
            v = n;
        }
        k = k + 1;
    }
    assert(t@.take(t.len() as int) =~= t@);
    v > tope
}


proof fn lema_fin_de_digitos(d: Seq<char>, x: Seq<char>, i: int)
    requires
        0 <= i <= d.len(),
        forall|k: int| 0 <= k < d.len() ==> es_digito(#[trigger] d[k]),
        x.len() > 0,
        !es_de(x[0], Clase::Numerico),
    ensures
        fin_de(d + x, i, Clase::Numerico) == d.len(),
    decreases d.len() - i,
{
    let s = d + x;
    if i < d.len() {
        assert(s[i] == d[i]);
        lema_fin_de_digitos(d, x, i + 1);
    } else {
        assert(s[i] == x[0]);
    }
}

proof fn lema_sin_separador(t: Seq<char>, i: int)
    requires
        0 <= i <= t.len(),
        forall|k: int| 0 <= k < t.len() ==> es_digito(#[trigger] t[k]),
    ensures
        primer_separador(t, i) == t.len(),
    decreases t.len() - i,
{
    if i < t.len() {
        assert(es_digito(t[i]));
        lema_sin_separador(t, i + 1);
    }
}

/// Un tramo de dígitos seguido de algo que no es número se lee como el entero
/// de esos dígitos.
pub proof fn lema_numero_de_digitos(d: Seq<char>, x: Seq<char>)
    requires
        d.len() > 0,
        forall|k: int| 0 <= k < d.len() ==> es_digito(#[trigger] d[k]),
        x.len() > 0,
        !es_de(x[0], Clase::Numerico),
    ensures
        primer_numero(d + x) == Some((valores(d), Seq::<u8>::empty())),
{
    let s = d + x;
    assert(s[0] == d[0]);
    assert(es_digito(d[0]));
    assert(primer_de(s, 0, Clase::Numerico) == 0);
    lema_fin_de_digitos(d, x, 0);
    assert(primer_token(s) =~= d);
    lema_sin_separador(d, 0);
}

} // verus!
