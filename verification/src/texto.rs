//! Utilidades de texto sobre secuencias de caracteres: búsqueda, prefijos,
//! recorte de blancos y separación en líneas.

use vstd::prelude::*;

verus! {

// ── Envoltura de std ─────────────────────────────────────────────────────────

/// Resultado de `str::to_lowercase` sobre los caracteres dados.
pub uninterp spec fn minusculas_de(s: Seq<char>) -> Seq<char>;

/// Llama a `str::to_lowercase` sobre el texto formado por `s` y devuelve sus
/// caracteres. Se afirma que el resultado es `minusculas_de(s@)` y que es
/// vacío justo cuando `s` lo es (cada carácter da al menos un carácter).
#[verifier::external_body]
pub(crate) fn a_minusculas(s: &Vec<char>) -> (r: Vec<char>)
    ensures
        r@ == minusculas_de(s@),
        s@.len() == 0 <==> r@.len() == 0,
{
    let t: String = s.iter().collect();
    t.to_lowercase().chars().collect()
}

/// Llama a `String::push`: agrega el carácter `c` al final de `s`.
#[verifier::external_body]
pub(crate) fn empujar(s: &mut String, c: char)
    ensures
        final(s)@ == old(s)@.push(c),
{
    s.push(c);
}

/// Llama a `String::pop`: quita el último carácter de `s`, si hay alguno.
#[verifier::external_body]
pub(crate) fn quitar_ultimo(s: &mut String)
    ensures
        final(s)@ == if old(s)@.len() > 0 {
            old(s)@.drop_last()
        } else {
            old(s)@
        },
{
    s.pop();
}

// ── Clases de caracteres ─────────────────────────────────────────────────────

/// Carácter con la propiedad Unicode `White_Space` (lo que `char::is_whitespace`
/// reconoce).
pub open spec fn es_blanco(c: char) -> bool {
    let u = c as u32;
    (0x09 <= u <= 0x0D) || u == 0x20 || u == 0x85 || u == 0xA0 || u == 0x1680 || (0x2000 <= u
        <= 0x200A) || u == 0x2028 || u == 0x2029 || u == 0x202F || u == 0x205F || u == 0x3000
}

/// Dígito ASCII `0`–`9`.
pub open spec fn es_digito(c: char) -> bool {
    '0' <= c && c <= '9'
}

/// Código del carácter con las mayúsculas ASCII pasadas a minúsculas.
pub open spec fn plegado(c: char) -> u32 {
    if 'A' <= c && c <= 'Z' {
        (c as u32 + 32) as u32
    } else {
        c as u32
    }
}

pub fn blanco(c: char) -> (r: bool)
    ensures
        r == es_blanco(c),
{
    let u = c as u32;
    (0x09 <= u && u <= 0x0D) || u == 0x20 || u == 0x85 || u == 0xA0 || u == 0x1680 || (0x2000 <= u
        && u <= 0x200A) || u == 0x2028 || u == 0x2029 || u == 0x202F || u == 0x205F || u == 0x3000
}

pub fn digito(c: char) -> (r: bool)
    ensures
        r == es_digito(c),
{
    '0' <= c && c <= '9'
}

pub fn plegar(c: char) -> (r: u32)
    ensures
        r == plegado(c),
{
    if 'A' <= c && c <= 'Z' {
        c as u32 + 32
    } else {
        c as u32
    }
}

// ── Prefijos y búsqueda ──────────────────────────────────────────────────────

/// `p` aparece en `s` a partir de la posición `i`.
pub open spec fn aparece_en(s: Seq<char>, p: Seq<char>, i: int) -> bool {
    0 <= i && i + p.len() <= s.len() && s.subrange(i, i + p.len()) == p
}

/// `s` empieza con `p` (distinguiendo mayúsculas).
pub open spec fn empieza_con(s: Seq<char>, p: Seq<char>) -> bool {
    aparece_en(s, p, 0)
}

/// `s` empieza con `p` sin distinguir mayúsculas ASCII.
pub open spec fn empieza_sin_caso(s: Seq<char>, p: Seq<char>) -> bool {
    p.len() <= s.len() && forall|i: int| 0 <= i < p.len() ==> plegado(#[trigger] s[i]) == plegado(p[i])
}

/// Primera posición, desde `i`, donde aparece `p` en `s`.
pub open spec fn buscar_desde(s: Seq<char>, p: Seq<char>, i: int) -> Option<int>
    decreases s.len() + 1 - i,
{
    if i < 0 || i + p.len() > s.len() {
        None
    } else if aparece_en(s, p, i) {
        Some(i)
    } else {
        buscar_desde(s, p, i + 1)
    }
}

/// Primera posición donde aparece `p` en `s`.
pub open spec fn buscar(s: Seq<char>, p: Seq<char>) -> Option<int> {
    buscar_desde(s, p, 0)
}

/// `p` aparece en algún lugar de `s`.
pub open spec fn contiene(s: Seq<char>, p: Seq<char>) -> bool {
    buscar(s, p) is Some
}

/// Última posición menor que `j` donde está el carácter `c`.
pub open spec fn ultima_antes(s: Seq<char>, c: char, j: int) -> Option<int>
    decreases j,
{
    if j <= 0 || j > s.len() {
        None
    } else if s[j - 1] == c {
        Some(j - 1)
    } else {
        ultima_antes(s, c, j - 1)
    }
}

pub proof fn lema_buscar(s: Seq<char>, p: Seq<char>, i: int)
    ensures
        buscar_desde(s, p, i) matches Some(x) ==> x >= i && aparece_en(s, p, x),
    decreases s.len() + 1 - i,
{
    if 0 <= i && i + p.len() <= s.len() && !aparece_en(s, p, i) {
        lema_buscar(s, p, i + 1);
    }
}

proof fn lema_buscar_llega(s: Seq<char>, p: Seq<char>, i: int, k: int)
    requires
        0 <= i <= k,
        aparece_en(s, p, k),
    ensures
        buscar_desde(s, p, i) is Some,
    decreases k - i,
{
    if i < k && !aparece_en(s, p, i) {
        lema_buscar_llega(s, p, i + 1, k);
    }
}

/// Si `p` aparece en la posición `k` de `s`, `s` contiene a `p`.
pub proof fn lema_aparece_contiene(s: Seq<char>, p: Seq<char>, k: int)
    requires
        aparece_en(s, p, k),
    ensures
        contiene(s, p),
{
    lema_buscar_llega(s, p, 0, k);
}

pub proof fn lema_ultima(s: Seq<char>, c: char, j: int)
    ensures
        ultima_antes(s, c, j) matches Some(x) ==> 0 <= x < j && x < s.len() && s[x] == c,
    decreases j,
{
    if 0 < j <= s.len() && s[j - 1] != c {
        lema_ultima(s, c, j - 1);
    }
}

pub fn aparece_en_exec(s: &Vec<char>, p: &Vec<char>, i: usize) -> (r: bool)
    ensures
        r == aparece_en(s@, p@, i as int),
{
    if i > s.len() || p.len() > s.len() - i {
        return false;
    }
    let mut j: usize = 0;
    while j < p.len()
        invariant
            i + p.len() <= s.len(),
            j <= p.len(),
            forall|k: int| 0 <= k < j ==> s@[i + k] == p@[k],
        decreases p.len() - j,
    {
        if s[i + j] != p[j] {
            assert(s@.subrange(i as int, i + p.len())[j as int] != p@[j as int]);
            return false;
        }
        j = j + 1;
    }
    assert(s@.subrange(i as int, i + p.len()) =~= p@);
    true
}

pub fn empieza_con_exec(s: &Vec<char>, p: &Vec<char>) -> (r: bool)
    ensures
        r == empieza_con(s@, p@),
{
    aparece_en_exec(s, p, 0)
}

pub fn empieza_sin_caso_exec(s: &Vec<char>, p: &Vec<char>) -> (r: bool)
    ensures
        r == empieza_sin_caso(s@, p@),
{
    if p.len() > s.len() {
        return false;
    }
    let mut j: usize = 0;
    while j < p.len()
        invariant
            p.len() <= s.len(),
            j <= p.len(),
            forall|k: int| 0 <= k < j ==> plegado(#[trigger] s@[k]) == plegado(p@[k]),
        decreases p.len() - j,
    {
        if plegar(s[j]) != plegar(p[j]) {
            return false;
        }
        j = j + 1;
    }
    true
}

pub fn buscar_exec(s: &Vec<char>, p: &Vec<char>) -> (r: Option<usize>)
    ensures
        match r {
            Some(i) => buscar(s@, p@) == Some(i as int),
            None => buscar(s@, p@) is None,
        },
{
    let mut i: usize = 0;
    while i < s.len()
        invariant
            i <= s.len(),
            buscar(s@, p@) == buscar_desde(s@, p@, i as int),
        decreases s.len() - i,
    {
        if p.len() > s.len() - i {
            return None;
        }
        if aparece_en_exec(s, p, i) {
            return Some(i);
        }
        i = i + 1;
    }
    if p.len() == 0 {
        assert(s@.subrange(i as int, i as int) =~= p@);
        Some(i)
    } else {
        None
    }
}

pub fn contiene_exec(s: &Vec<char>, p: &Vec<char>) -> (r: bool)
    ensures
        r == contiene(s@, p@),
{
    buscar_exec(s, p).is_some()
}

pub fn ultima_exec(s: &Vec<char>, c: char) -> (r: Option<usize>)
    ensures
        match r {
            Some(i) => ultima_antes(s@, c, s@.len() as int) == Some(i as int),
            None => ultima_antes(s@, c, s@.len() as int) is None,
        },
{
    let mut j: usize = s.len();
    while j > 0
        invariant
            j <= s.len(),
            ultima_antes(s@, c, s@.len() as int) == ultima_antes(s@, c, j as int),
        decreases j,
    {
        if s[j - 1] == c {
            return Some(j - 1);
        }
        j = j - 1;
    }
    None
}

// ── Recorte de blancos ───────────────────────────────────────────────────────

/// Primera posición desde `i` que no es blanco (o el largo).
pub open spec fn salto_blancos(s: Seq<char>, i: int) -> int
    decreases s.len() - i,
{
    if i < 0 || i >= s.len() {
        s.len() as int
    } else if !es_blanco(s[i]) {
        i
    } else {
        salto_blancos(s, i + 1)
    }
}

/// Fin (exclusivo) del último carácter no blanco antes de `j` (o 0).
pub open spec fn fin_sin_blancos(s: Seq<char>, j: int) -> int
    decreases j,
{
    if j <= 0 || j > s.len() {
        0
    } else if !es_blanco(s[j - 1]) {
        j
    } else {
        fin_sin_blancos(s, j - 1)
    }
}

/// `s` sin blancos al principio ni al final (lo que hace `str::trim`).
pub open spec fn recortar(s: Seq<char>) -> Seq<char> {
    let a = salto_blancos(s, 0);
    let b = fin_sin_blancos(s, s.len() as int);
    if a < b {
        s.subrange(a, b)
    } else {
        Seq::empty()
    }
}

proof fn lema_salto(s: Seq<char>, i: int)
    requires
        0 <= i <= s.len(),
    ensures
        i <= salto_blancos(s, i) <= s.len(),
    decreases s.len() - i,
{
    if i < s.len() && es_blanco(s[i]) {
        lema_salto(s, i + 1);
    }
}

proof fn lema_fin(s: Seq<char>, j: int)
    requires
        0 <= j <= s.len(),
    ensures
        0 <= fin_sin_blancos(s, j) <= j,
    decreases j,
{
    if j > 0 && es_blanco(s[j - 1]) {
        lema_fin(s, j - 1);
    }
}

pub fn recortar_exec(s: &Vec<char>) -> (r: Vec<char>)
    ensures
        r@ == recortar(s@),
{
    let mut a: usize = 0;
    while a < s.len() && blanco(s[a])
        invariant
            a <= s.len(),
            salto_blancos(s@, 0) == salto_blancos(s@, a as int),
        decreases s.len() - a,
    {
        a = a + 1;
    }
    let mut b: usize = s.len();
    while b > 0 && blanco(s[b - 1])
        invariant
            b <= s.len(),
            fin_sin_blancos(s@, s@.len() as int) == fin_sin_blancos(s@, b as int),
        decreases b,
    {
        b = b - 1;
    }
    let mut r: Vec<char> = Vec::new();
    if a < b {
        let mut i: usize = a;
        while i < b
            invariant
                a <= i <= b <= s.len(),
                r@ =~= s@.subrange(a as int, i as int),
            decreases b - i,
        {
            r.push(s[i]);
            i = i + 1;
        }
    }
    r
}

/// Copia de `s` a partir de la posición `i`.
pub fn desde(s: &Vec<char>, i: usize) -> (r: Vec<char>)
    requires
        i <= s.len(),
    ensures
        r@ == s@.skip(i as int),
{
    let mut r: Vec<char> = Vec::new();
    let mut k: usize = i;
    while k < s.len()
        invariant
            i <= k <= s.len(),
            r@ =~= s@.subrange(i as int, k as int),
        decreases s.len() - k,
    {
        r.push(s[k]);
        k = k + 1;
    }
    r
}

/// Copia de las primeras `j` posiciones de `s`.
pub fn hasta(s: &Vec<char>, j: usize) -> (r: Vec<char>)
    requires
        j <= s.len(),
    ensures
        r@ == s@.take(j as int),
{
    let mut r: Vec<char> = Vec::new();
    let mut k: usize = 0;
    while k < j
        invariant
            k <= j <= s.len(),
            r@ =~= s@.subrange(0, k as int),
        decreases j - k,
    {
        r.push(s[k]);
        k = k + 1;
    }
    r
}

// ── Líneas ───────────────────────────────────────────────────────────────────

/// Posición del primer `'\n'` desde `i`, o el largo si no hay.
pub open spec fn fin_linea(s: Seq<char>, i: int) -> int
    decreases s.len() - i,
{
    if i < 0 || i >= s.len() {
        s.len() as int
    } else if s[i] == '\n' {
        i
    } else {
        fin_linea(s, i + 1)
    }
}

pub proof fn lema_fin_linea(s: Seq<char>, i: int)
    requires
        0 <= i <= s.len(),
    ensures
        i <= fin_linea(s, i) <= s.len(),
        fin_linea(s, i) < s.len() ==> s[fin_linea(s, i)] == '\n',
    decreases s.len() - i,
{
    if i < s.len() && s[i] != '\n' {
        lema_fin_linea(s, i + 1);
    }
}

/// Las líneas de `s` desde la posición `i`, como las entrega `str::lines`:
/// se corta en cada `'\n'`, se quita un `'\r'` final si la línea terminaba en
/// `'\n'`, y no hay línea vacía tras un `'\n'` final.
pub open spec fn lineas_desde(s: Seq<char>, i: int) -> Seq<Seq<char>>
    decreases s.len() + 1 - i,
{
    if i < 0 || i >= s.len() {
        Seq::empty()
    } else {
        let f = fin_linea(s, i);
        proof {
            lema_fin_linea(s, i);
        }
        let cruda = s.subrange(i, f);
        let linea = if f < s.len() && cruda.len() > 0 && cruda.last() == '\r' {
            cruda.drop_last()
        } else {
            cruda
        };
        seq![linea] + lineas_desde(s, f + 1)
    }
}

/// Las líneas de `s`.
pub open spec fn lineas(s: Seq<char>) -> Seq<Seq<char>> {
    lineas_desde(s, 0)
}

proof fn lema_fin_linea_prefijo(a: Seq<char>, b: Seq<char>, i: int)
    requires
        0 <= i < a.len(),
        a.last() == '\n',
    ensures
        fin_linea(a + b, i) == fin_linea(a, i),
    decreases a.len() - i,
{
    if a[i] != '\n' {
        assert((a + b)[i] == a[i]);
        assert(i + 1 < a.len());
        lema_fin_linea_prefijo(a, b, i + 1);
    } else {
        assert((a + b)[i] == a[i]);
    }
}

proof fn lema_fin_linea_corrida(a: Seq<char>, b: Seq<char>, j: int)
    requires
        0 <= j <= b.len(),
    ensures
        fin_linea(a + b, a.len() + j) == a.len() + fin_linea(b, j),
    decreases b.len() - j,
{
    if j < b.len() {
        assert((a + b)[a.len() + j] == b[j]);
        if b[j] != '\n' {
            lema_fin_linea_corrida(a, b, j + 1);
        }
    }
}

proof fn lema_lineas_corridas(a: Seq<char>, b: Seq<char>, j: int)
    requires
        0 <= j <= b.len(),
    ensures
        lineas_desde(a + b, a.len() + j) == lineas_desde(b, j),
    decreases b.len() - j,
{
    if j < b.len() {
        let f = fin_linea(b, j);
        lema_fin_linea(b, j);
        lema_fin_linea_corrida(a, b, j);
        let s = a + b;
        let i2 = a.len() + j;
        let f2 = fin_linea(s, i2);
        assert(f2 == a.len() + f);
        let cruda = b.subrange(j, f);
        assert(s.subrange(i2, f2) =~= cruda);
        let linea = if f < b.len() && cruda.len() > 0 && cruda.last() == '\r' {
            cruda.drop_last()
        } else {
            cruda
        };
        if f < b.len() {
            lema_lineas_corridas(a, b, f + 1);
        }
        assert(lineas_desde(s, f2 + 1) == lineas_desde(b, f + 1));
        assert(lineas_desde(b, j) == seq![linea] + lineas_desde(b, f + 1));
        assert(lineas_desde(s, i2) == seq![linea] + lineas_desde(s, f2 + 1));
    }
}

/// Si `a` termina en un salto de línea, las líneas de `a + b` son las de `a`
/// seguidas de las de `b` (desde la posición `i` de `a`).
pub proof fn lema_lineas_concat(a: Seq<char>, b: Seq<char>, i: int)
    requires
        0 <= i <= a.len(),
        a.len() > 0,
        a.last() == '\n',
    ensures
        lineas_desde(a + b, i) == lineas_desde(a, i) + lineas(b),
    decreases a.len() - i,
{
    if i == a.len() {
        lema_lineas_corridas(a, b, 0);
        assert(lineas_desde(a, i) =~= Seq::<Seq<char>>::empty());
        assert(lineas_desde(a + b, i) =~= lineas(b));
    } else {
        let f = fin_linea(a, i);
        lema_fin_linea(a, i);
        lema_fin_linea_prefijo(a, b, i);
        assert(f < a.len()) by {
            if f == a.len() {
                lema_fin_linea_hasta_salto(a, i);
            }
        }
        assert((a + b).subrange(i, f) =~= a.subrange(i, f));
        lema_lineas_concat(a, b, f + 1);
        assert(lineas_desde(a + b, i) =~= lineas_desde(a, i) + lineas(b));
    }
}

proof fn lema_fin_linea_hasta_salto(a: Seq<char>, i: int)
    requires
        0 <= i < a.len(),
        a.last() == '\n',
    ensures
        fin_linea(a, i) < a.len(),
    decreases a.len() - i,
{
    if a[i] != '\n' {
        lema_fin_linea_hasta_salto(a, i + 1);
    }
}

proof fn lema_fin_linea_sin_salto(a: Seq<char>, b: Seq<char>, i: int)
    requires
        0 <= i <= a.len(),
        forall|k: int| 0 <= k < a.len() ==> a[k] != '\n',
    ensures
        fin_linea(a + seq!['\n'] + b, i) == a.len(),
    decreases a.len() - i,
{
    let s = a + seq!['\n'] + b;
    if i < a.len() {
        assert(s[i] == a[i]);
        lema_fin_linea_sin_salto(a, b, i + 1);
    } else {
        assert(s[i] == '\n');
    }
}

/// Si `a` no tiene saltos de línea ni termina en `'\r'`, las líneas de
/// `a`, un salto y `b` son `a` seguida de las líneas de `b`.
pub proof fn lema_primera_linea(a: Seq<char>, b: Seq<char>)
    requires
        forall|k: int| 0 <= k < a.len() ==> a[k] != '\n',
        a.len() == 0 || a.last() != '\r',
    ensures
        lineas(a + seq!['\n'] + b) == seq![a] + lineas(b),
{
    let s = a + seq!['\n'] + b;
    let a1 = a + seq!['\n'];
    lema_fin_linea_sin_salto(a, b, 0);
    assert(s.subrange(0, a.len() as int) =~= a);
    lema_lineas_corridas(a1, b, 0);
    assert(s == a1 + b);
    assert(lineas_desde(s, a.len() + 1int) == lineas(b));
    assert(lineas(s) =~= seq![a] + lineas(b));
}

/// `s` no empieza con `p` si difieren en la posición `i`.
pub proof fn lema_no_empieza(s: Seq<char>, p: Seq<char>, i: int)
    requires
        0 <= i < p.len(),
        i < s.len(),
        s[i] != p[i],
    ensures
        !empieza_con(s, p),
{
    if p.len() <= s.len() {
        assert(s.subrange(0, p.len() as int)[i] == s[i]);
    }
}

/// Un texto que no empieza ni termina con blancos queda igual al recortarlo.
pub proof fn lema_recortar_igual(s: Seq<char>)
    requires
        s.len() > 0,
        !es_blanco(s[0]),
        !es_blanco(s.last()),
    ensures
        recortar(s) == s,
{
    assert(salto_blancos(s, 0) == 0);
    assert(fin_sin_blancos(s, s.len() as int) == s.len());
    assert(s.subrange(0, s.len() as int) =~= s);
}

/// Las primeras `max` líneas de `s`.
pub fn lineas_exec(s: &Vec<char>, max: usize) -> (r: Vec<Vec<char>>)
    ensures
        r@.map_values(|v: Vec<char>| v@) == lineas(s@).take(
            if lineas(s@).len() < max { lineas(s@).len() as int } else { max as int },
        ),
{
    let mut r: Vec<Vec<char>> = Vec::new();
    let mut i: usize = 0;
    while i < s.len() && r.len() < max
        invariant
            i <= s.len(),
            r.len() <= max,
            r@.map_values(|v: Vec<char>| v@) + lineas_desde(s@, i as int) == lineas(s@),
        decreases s.len() - i,
    {
        let mut f: usize = i;
        while f < s.len() && s[f] != '\n'
            invariant
                i <= f <= s.len(),
                fin_linea(s@, i as int) == fin_linea(s@, f as int),
            decreases s.len() - f,
        {
            f = f + 1;
        }
        proof {
            lema_fin_linea(s@, i as int);
        }
        let mut linea: Vec<char> = Vec::new();
        let mut k: usize = i;
        while k < f
            invariant
                i <= k <= f <= s.len(),
                linea@ =~= s@.subrange(i as int, k as int),
            decreases f - k,
        {
            linea.push(s[k]);
            k = k + 1;
        }
        if f < s.len() && linea.len() > 0 && linea[linea.len() - 1] == '\r' {
            linea.pop();
        }
        let ghost antes = r@;
        r.push(linea);
        assert(r@.map_values(|v: Vec<char>| v@) =~= antes.map_values(|v: Vec<char>| v@).push(
            linea@,
        ));
        assert(r@.map_values(|v: Vec<char>| v@) + lineas_desde(s@, f + 1) =~= lineas(s@));
        if f < s.len() {
            i = f + 1;
        } else {
            i = f;
        }
    }
    assert(r@.map_values(|v: Vec<char>| v@) =~= lineas(s@).take(
        if lineas(s@).len() < max { lineas(s@).len() as int } else { max as int },
    ));
    r
}

/// `a` es igual al literal `lit`.
pub fn igual_a(a: &Vec<char>, lit: &str) -> (r: bool)
    ensures
        r == (a@ == lit@),
{
    let b = chars_de(lit);
    if a.len() != b.len() {
        return false;
    }
    let mut i: usize = 0;
    while i < a.len()
        invariant
            a.len() == b.len(),
            b@ == lit@,
            i <= a.len(),
            forall|k: int| 0 <= k < i ==> a@[k] == b@[k],
        decreases a.len() - i,
    {
        if a[i] != b[i] {
            return false;
        }
        i = i + 1;
    }
    assert(a@ =~= b@);
    true
}

/// Los caracteres de `s`, en orden.
pub fn chars_de(s: &str) -> (v: Vec<char>)
    ensures
        v@ == s@,
{
    let mut v: Vec<char> = Vec::new();
    for c in it: s.chars()
        invariant
            v.len() == it.index(),
            forall|i: int| 0 <= i < v.len() ==> v[i] == it.seq()[i],
    {
        v.push(c);
    }
    assert(v@ =~= s@);
    v
}

} // verus!
