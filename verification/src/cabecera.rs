//! Lectura de la cabecera de un G-code: slicer de origen, tiempo estimado,
//! filamento, capas, temperaturas, altura de capa y relleno.
//!
//! Los valores numéricos se entregan como decimales exactos (dígitos) y, para
//! los campos donde vale el primer valor no nulo, como la lista ordenada de
//! candidatos que aparecen en el archivo.

use crate::numeros::{numero_antes, numero_antes_exec, primer_numero, primer_numero_exec, primeros_digitos, valor_digitos, supera, Clase, Decimal, primer_de_exec, fin_de_exec, lema_primer_de, lema_fin_de, tramo, es_de};
use crate::texto::{aparece_en, lema_aparece_contiene, plegado, digito, es_digito, a_minusculas, minusculas_de, lema_buscar, lema_ultima, buscar, buscar_exec, chars_de, desde, empieza_con, empieza_con_exec, empieza_sin_caso, empieza_sin_caso_exec, es_blanco, blanco, fin_sin_blancos, recortar, recortar_exec, ultima_antes, ultima_exec, contiene, contiene_exec, lineas, lineas_exec, hasta};
use crate::gcode::{decimal_u32, texto_inicio_gcode};
use vstd::prelude::*;

verus! {

// ── Envolturas de std ────────────────────────────────────────────────────────

/// Resultado de `char::is_alphabetic` (propiedad Unicode `Alphabetic`).
pub uninterp spec fn es_alfabetico(c: char) -> bool;

/// Llama a `char::is_alphabetic`. Se afirma que el resultado es
/// `es_alfabetico(c)` y que, para un carácter ASCII, es verdadero justo en las
/// letras `a`–`z` y `A`–`Z` (como documenta std).
#[verifier::external_body]
fn alfabetico(c: char) -> (r: bool)
    ensures
        r == es_alfabetico(c),
        (c as u32) < 128 ==> (r <==> (('a' <= c && c <= 'z') || ('A' <= c && c <= 'Z'))),
{
    c.is_alphabetic()
}

// ── istrip ───────────────────────────────────────────────────────────────────

/// Lo que queda de `s` tras el prefijo `p` (sin distinguir mayúsculas ASCII),
/// o `None` si `s` no empieza con `p`.
pub open spec fn istrip_spec(s: Seq<char>, p: Seq<char>) -> Option<Seq<char>> {
    if empieza_sin_caso(s, p) {
        Some(s.skip(p.len() as int))
    } else {
        None
    }
}

/// Quita el prefijo `prefix` de `s` sin distinguir mayúsculas ASCII.
pub fn istrip(s: &Vec<char>, prefix: &str) -> (r: Option<Vec<char>>)
    ensures
        match r {
            Some(v) => istrip_spec(s@, prefix@) == Some(v@),
            None => istrip_spec(s@, prefix@) is None,
        },
{
    let p = chars_de(prefix);
    if empieza_sin_caso_exec(s, &p) {
        Some(desde(s, p.len()))
    } else {
        None
    }
}

// ── Tiempo ───────────────────────────────────────────────────────────────────

/// Un término de una suma de tiempo: horas (se multiplican por 60), minutos o
/// segundos (se dividen por 60).
pub enum Termino {
    Horas(Decimal),
    Minutos(Decimal),
    Segundos(Decimal),
}

pub enum TerminoV {
    Horas((Seq<u8>, Seq<u8>)),
    Minutos((Seq<u8>, Seq<u8>)),
    Segundos((Seq<u8>, Seq<u8>)),
}

impl View for Termino {
    type V = TerminoV;

    open spec fn view(&self) -> TerminoV {
        match self {
            Termino::Horas(d) => TerminoV::Horas(d@),
            Termino::Minutos(d) => TerminoV::Minutos(d@),
            Termino::Segundos(d) => TerminoV::Segundos(d@),
        }
    }
}

/// Lo que una línea dice del tiempo de impresión.
///
/// - `Suma(t)`: el tiempo en minutos es la suma, en orden, de los términos.
/// - `Otro { reloj, minutos, segundos }`: si `reloj` trae textos `(h, m, s)`
///   de la forma `H:MM:SS` y alguno vale más que cero, el tiempo es
///   `h * 60 + m + s / 60`; si no, y la suma de `minutos` (minutos dichos como
///   tales, sin horas) es mayor que cero, es esa suma; si no, y hay
///   `segundos` (un entero mayor que 300), es `segundos / 60`; si no, 0.
pub enum TiempoLeido {
    Suma(Vec<Termino>),
    Otro {
        reloj: Option<(Vec<char>, Vec<char>, Vec<char>)>,
        minutos: Vec<Termino>,
        segundos: Option<Vec<char>>,
    },
}

pub enum TiempoV {
    Suma(Seq<TerminoV>),
    Otro {
        reloj: Option<(Seq<char>, Seq<char>, Seq<char>)>,
        minutos: Seq<TerminoV>,
        segundos: Option<Seq<char>>,
    },
}

pub open spec fn vista_terminos(v: Seq<Termino>) -> Seq<TerminoV> {
    v.map_values(|t: Termino| t@)
}

impl View for TiempoLeido {
    type V = TiempoV;

    open spec fn view(&self) -> TiempoV {
        match self {
            TiempoLeido::Suma(v) => TiempoV::Suma(vista_terminos(v@)),
            TiempoLeido::Otro { reloj, minutos, segundos } => TiempoV::Otro {
                reloj: match reloj {
                    Some(p) => Some((p.0@, p.1@, p.2@)),
                    None => None,
                },
                minutos: vista_terminos(minutos@),
                segundos: match segundos {
                    Some(d) => Some(d@),
                    None => None,
                },
            },
        }
    }
}

/// Vista de un decimal opcional.
pub open spec fn opt_vista(o: Option<Decimal>) -> Option<(Seq<u8>, Seq<u8>)> {
    match o {
        Some(d) => Some(d@),
        None => None,
    }
}

/// El término de clase `k` (0 horas, 1 minutos, 2 segundos) con el valor
/// leído, o ninguno.
pub open spec fn termino_de(k: u8, o: Option<(Seq<u8>, Seq<u8>)>) -> Seq<TerminoV> {
    match o {
        Some(d) => seq![
            if k == 0 {
                TerminoV::Horas(d)
            } else if k == 1 {
                TerminoV::Minutos(d)
            } else {
                TerminoV::Segundos(d)
            },
        ],
        None => Seq::empty(),
    }
}

/// El número justo antes de la primera aparición de la palabra `w`.
pub open spec fn num_de_palabra(l: Seq<char>, w: Seq<char>) -> Option<(Seq<u8>, Seq<u8>)> {
    match buscar(l, w) {
        Some(p) => numero_antes(l, p),
        None => None,
    }
}

/// Minutos en forma `Xm`: el número antes de la última `m`, si no la sigue
/// una letra.
pub open spec fn minutos_m(l: Seq<char>) -> Option<(Seq<u8>, Seq<u8>)> {
    match ultima_antes(l, 'm', l.len() as int) {
        Some(pm) => if pm + 1 >= l.len() || l[pm + 1] == ' ' || l[pm + 1] == '\n' || !es_alfabetico(
            l[pm + 1],
        ) {
            numero_antes(l, pm)
        } else {
            None
        },
        None => None,
    }
}

/// Segundos en forma `Xs`: el número pegado antes de la última `s`, si no la
/// sigue una letra.
pub open spec fn segundos_s(l: Seq<char>) -> Option<(Seq<u8>, Seq<u8>)> {
    match ultima_antes(l, 's', l.len() as int) {
        Some(ps) => if (ps + 1 >= l.len() || !es_alfabetico(l[ps + 1])) && ps > 0 && es_digito(l[ps - 1]) {
            numero_antes(l, ps)
        } else {
            None
        },
        None => None,
    }
}

/// `a` si hay valor; si no, `b`.
pub open spec fn o_bien(a: Option<(Seq<u8>, Seq<u8>)>, b: Option<(Seq<u8>, Seq<u8>)>) -> Option<(Seq<u8>, Seq<u8>)> {
    match a {
        Some(x) => Some(x),
        None => b,
    }
}

/// Comienzo de la palabra (tramo sin blancos) que termina en `j`.
pub open spec fn inicio_palabra(s: Seq<char>, j: int) -> int
    decreases j,
{
    if j <= 0 || j > s.len() {
        0
    } else if es_blanco(s[j - 1]) {
        j
    } else {
        inicio_palabra(s, j - 1)
    }
}

/// Última palabra de `s` (lo que da `split_whitespace().last()`).
pub open spec fn ultima_palabra(s: Seq<char>) -> Option<Seq<char>> {
    let b = fin_sin_blancos(s, s.len() as int);
    if b <= 0 {
        None
    } else {
        Some(s.subrange(inicio_palabra(s, b), b))
    }
}

/// Primera posición desde `i` con un blanco (o el largo).
pub open spec fn hasta_blanco(s: Seq<char>, i: int) -> int
    decreases s.len() - i,
{
    if i < 0 || i >= s.len() {
        s.len() as int
    } else if es_blanco(s[i]) {
        i
    } else {
        hasta_blanco(s, i + 1)
    }
}

/// Primera palabra de `s` (lo que da `split_whitespace().next()`).
pub open spec fn primera_palabra(s: Seq<char>) -> Option<Seq<char>> {
    let r = recortar(s);
    if r.len() == 0 {
        None
    } else {
        Some(r.take(hasta_blanco(r, 0)))
    }
}

/// Los textos de horas, minutos y segundos de un formato `H:MM:SS`: la
/// última palabra del antepenúltimo tramo entre `:` (o `"0"`), el penúltimo
/// tramo sin blancos y la primera palabra del último (o `"0"`). `None` si hay
/// menos de dos `:`.
pub open spec fn reloj_de(linea: Seq<char>) -> Option<(Seq<char>, Seq<char>, Seq<char>)> {
    match ultima_antes(linea, ':', linea.len() as int) {
        Some(q2) => match ultima_antes(linea, ':', q2) {
            Some(q1) => {
                let a = match ultima_antes(linea, ':', q1) {
                    Some(q0) => q0 + 1,
                    None => 0,
                };
                let h = match ultima_palabra(linea.subrange(a, q1)) {
                    Some(w) => w,
                    None => seq!['0'],
                };
                let sg = match primera_palabra(linea.subrange(q2 + 1, linea.len() as int)) {
                    Some(w) => w,
                    None => seq!['0'],
                };
                Some((h, recortar(linea.subrange(q1 + 1, q2)), sg))
            },
            None => None,
        },
        None => None,
    }
}

/// Lectura del tiempo de una línea (ver `TiempoLeido`), dada la línea tal
/// como vino (`linea`) y la misma línea en minúsculas (`l`).
///
/// Sobre `l`: si aparece `hour`, el número justo antes es de horas y el
/// número antes del primer `minute` es de minutos; si hubo horas se devuelve
/// esa suma. Si no, y aparece `h` (la primera, no seguida de una letra), el
/// número antes es de horas, el número antes de la última `m` (no seguida de
/// una letra) es de minutos y el número pegado antes de la última `s` (no
/// seguida de una letra) es de segundos, como en `1h 23m 45s`; si hubo horas
/// se devuelve la suma acumulada. Si no, se ofrecen el formato `H:MM:SS` de
/// `linea`, los minutos dichos como tales sin horas (palabra `minute`, o si
/// no `Xm`) y, como respaldo, el primer entero de la línea si pasa de 300
/// (segundos).
pub open spec fn tiempo_en(l: Seq<char>, linea: Seq<char>) -> TiempoV {
    let (terminos_a, horas_a) = match buscar(l, "hour"@) {
        Some(pos) => (
            termino_de(0, numero_antes(l, pos)) + termino_de(1, num_de_palabra(l, "minute"@)),
            numero_antes(l, pos) is Some,
        ),
        None => (Seq::empty(), false),
    };
    if horas_a {
        TiempoV::Suma(terminos_a)
    } else {
        let (terminos_b, horas_b) = match buscar(l, seq!['h']) {
            Some(pos) => {
                let libre_h = pos + 1 >= l.len() || !es_alfabetico(l[pos + 1]);
                let h = if libre_h { numero_antes(l, pos) } else { None };
                (termino_de(0, h) + termino_de(1, minutos_m(l)) + termino_de(2, segundos_s(l)), h is Some)
            },
            None => (Seq::empty(), false),
        };
        if horas_b {
            TiempoV::Suma(terminos_a + terminos_b)
        } else {
            TiempoV::Otro {
                reloj: reloj_de(linea),
                minutos: termino_de(1, o_bien(num_de_palabra(l, "minute"@), minutos_m(l))),
                segundos: match primeros_digitos(l) {
                    Some(d) => if valor_digitos(d) > 300 {
                        Some(d)
                    } else {
                        None
                    },
                    None => None,
                },
            }
        }
    }
}

/// Lectura del tiempo de una línea: la de `tiempo_en` sobre la línea en
/// minúsculas.
pub open spec fn tiempo_spec(linea: Seq<char>) -> TiempoV {
    tiempo_en(minusculas_de(linea), linea)
}

/// Agrega el término de clase `k` con el valor `o`, si lo hay.
fn agregar_termino(v: &mut Vec<Termino>, o: Option<Decimal>, k: u8)
    ensures
        vista_terminos(final(v)@) == vista_terminos(old(v)@) + termino_de(k, opt_vista(o)),
{
    let ghost antes = v@;
    match o {
        Some(d) => {
            let t = if k == 0 {
                Termino::Horas(d)
            } else if k == 1 {
                Termino::Minutos(d)
            } else {
                Termino::Segundos(d)
            };
            v.push(t);
            assert(vista_terminos(v@) =~= vista_terminos(antes) + termino_de(k, opt_vista(o)));
        },
        None => {
            assert(vista_terminos(v@) =~= vista_terminos(antes) + termino_de(k, opt_vista(o)));
        },
    }
}

fn num_de_palabra_exec(l: &Vec<char>, w: &str) -> (r: Option<Decimal>)
    ensures
        opt_vista(r) == num_de_palabra(l@, w@),
{
    let p = chars_de(w);
    proof {
        lema_buscar(l@, p@, 0);
    }
    match buscar_exec(l, &p) {
        Some(pos) => numero_antes_exec(l, pos),
        None => None,
    }
}

fn minutos_m_exec(l: &Vec<char>) -> (r: Option<Decimal>)
    ensures
        opt_vista(r) == minutos_m(l@),
{
    proof {
        lema_ultima(l@, 'm', l@.len() as int);
    }
    match ultima_exec(l, 'm') {
        Some(pm) => {
            assert(pm < l.len());
            if pm + 1 >= l.len() || l[pm + 1] == ' ' || l[pm + 1] == '\n' || !alfabetico(l[pm + 1]) {
                numero_antes_exec(l, pm)
            } else {
                None
            }
        },
        None => None,
    }
}

fn segundos_s_exec(l: &Vec<char>) -> (r: Option<Decimal>)
    ensures
        opt_vista(r) == segundos_s(l@),
{
    proof {
        lema_ultima(l@, 's', l@.len() as int);
    }
    match ultima_exec(l, 's') {
        Some(ps) => {
            assert(ps < l.len());
            if (ps + 1 >= l.len() || !alfabetico(l[ps + 1])) && ps > 0 && digito(l[ps - 1]) {
                numero_antes_exec(l, ps)
            } else {
                None
            }
        },
        None => None,
    }
}

fn o_bien_exec(a: Option<Decimal>, b: Option<Decimal>) -> (r: Option<Decimal>)
    ensures
        opt_vista(r) == o_bien(opt_vista(a), opt_vista(b)),
{
    match a {
        Some(x) => Some(x),
        None => b,
    }
}

fn inicio_palabra_exec(s: &Vec<char>, j: usize) -> (r: usize)
    requires
        j <= s.len(),
    ensures
        r == inicio_palabra(s@, j as int),
        r <= j,
{
    let mut b = j;
    while b > 0 && !blanco(s[b - 1])
        invariant
            b <= j <= s.len(),
            inicio_palabra(s@, j as int) == inicio_palabra(s@, b as int),
        decreases b,
    {
        b = b - 1;
    }
    b
}

fn fin_sin_blancos_exec(s: &Vec<char>) -> (r: usize)
    ensures
        r == fin_sin_blancos(s@, s@.len() as int),
        r <= s.len(),
{
    let mut b: usize = s.len();
    while b > 0 && blanco(s[b - 1])
        invariant
            b <= s.len(),
            fin_sin_blancos(s@, s@.len() as int) == fin_sin_blancos(s@, b as int),
        decreases b,
    {
        b = b - 1;
    }
    b
}

fn ultima_palabra_exec(s: &Vec<char>) -> (r: Option<Vec<char>>)
    ensures
        match r {
            Some(w) => ultima_palabra(s@) == Some(w@),
            None => ultima_palabra(s@) is None,
        },
{
    let b = fin_sin_blancos_exec(s);
    if b == 0 {
        return None;
    }
    let a = inicio_palabra_exec(s, b);
    Some(tramo(s, a, b))
}

fn primera_palabra_exec(s: &Vec<char>) -> (r: Option<Vec<char>>)
    ensures
        match r {
            Some(w) => primera_palabra(s@) == Some(w@),
            None => primera_palabra(s@) is None,
        },
{
    let t = recortar_exec(s);
    if t.len() == 0 {
        return None;
    }
    let mut b: usize = 0;
    while b < t.len() && !blanco(t[b])
        invariant
            b <= t.len(),
            hasta_blanco(t@, 0) == hasta_blanco(t@, b as int),
        decreases t.len() - b,
    {
        b = b + 1;
    }
    Some(hasta(&t, b))
}

fn cero() -> (r: Vec<char>)
    ensures
        r@ == seq!['0'],
{
    let mut c: Vec<char> = Vec::new();
    c.push('0');
    assert(c@ =~= seq!['0']);
    c
}

fn reloj_exec(linea: &Vec<char>) -> (r: Option<(Vec<char>, Vec<char>, Vec<char>)>)
    ensures
        match r {
            Some(p) => reloj_de(linea@) == Some((p.0@, p.1@, p.2@)),
            None => reloj_de(linea@) is None,
        },
{
    let n = linea.len();
    proof {
        lema_ultima(linea@, ':', n as int);
    }
    let q2 = match ultima_antes_exec(linea, ':', n) {
        Some(q) => q,
        None => return None,
    };
    proof {
        lema_ultima(linea@, ':', q2 as int);
    }
    let q1 = match ultima_antes_exec(linea, ':', q2) {
        Some(q) => q,
        None => return None,
    };
    proof {
        lema_ultima(linea@, ':', q1 as int);
    }
    let a = match ultima_antes_exec(linea, ':', q1) {
        Some(q0) => q0 + 1,
        None => 0,
    };
    let parte_h = tramo(linea, a, q1);
    let h = match ultima_palabra_exec(&parte_h) {
        Some(w) => w,
        None => cero(),
    };
    let parte_m = tramo(linea, q1 + 1, q2);
    let m = recortar_exec(&parte_m);
    let parte_s = tramo(linea, q2 + 1, n);
    let sg = match primera_palabra_exec(&parte_s) {
        Some(w) => w,
        None => cero(),
    };
    Some((h, m, sg))
}

/// Última posición menor que `j` donde está el carácter `c`.
fn ultima_antes_exec(s: &Vec<char>, c: char, j: usize) -> (r: Option<usize>)
    requires
        j <= s.len(),
    ensures
        match r {
            Some(i) => ultima_antes(s@, c, j as int) == Some(i as int),
            None => ultima_antes(s@, c, j as int) is None,
        },
{
    let mut b: usize = j;
    while b > 0
        invariant
            b <= j <= s.len(),
            ultima_antes(s@, c, j as int) == ultima_antes(s@, c, b as int),
        decreases b,
    {
        if s[b - 1] == c {
            return Some(b - 1);
        }
        b = b - 1;
    }
    None
}

/// Lee lo que la línea dice del tiempo de impresión (ver `tiempo_spec`).
pub fn parse_tiempo(linea: &Vec<char>) -> (r: TiempoLeido)
    ensures
        r@ == tiempo_spec(linea@),
{
    let l = a_minusculas(linea);
    tiempo_de_linea(&l, linea)
}

/// Lee el tiempo de impresión de `linea`, con `l` la línea en minúsculas (ver
/// `tiempo_en`).
pub fn tiempo_de_linea(l: &Vec<char>, linea: &Vec<char>) -> (r: TiempoLeido)
    ensures
        r@ == tiempo_en(l@, linea@),
{
    let hour = chars_de("hour");
    let mut terminos: Vec<Termino> = Vec::new();
    let mut horas_a = false;
    proof {
        lema_buscar(l@, hour@, 0);
    }
    match buscar_exec(l, &hour) {
        Some(pos) => {
            let h = numero_antes_exec(l, pos);
            horas_a = h.is_some();
            agregar_termino(&mut terminos, h, 0);
            let m = num_de_palabra_exec(l, "minute");
            agregar_termino(&mut terminos, m, 1);
        },
        None => {},
    }
    assert(vista_terminos(terminos@) =~= match buscar(l@, "hour"@) {
        Some(pos) => termino_de(0, numero_antes(l@, pos)) + termino_de(1, num_de_palabra(l@, "minute"@)),
        None => Seq::empty(),
    });
    if horas_a {
        return TiempoLeido::Suma(terminos);
    }
    let h_pat = chars_de("h");
    proof {
        reveal_strlit("h");
        assert(h_pat@ =~= seq!['h']);
        lema_buscar(l@, h_pat@, 0);
    }
    let ghost ta = vista_terminos(terminos@);
    match buscar_exec(l, &h_pat) {
        Some(pos) => {
            assert(aparece_en(l@, h_pat@, pos as int));
            assert(h_pat@.len() == 1);
            assert(pos < l.len());
            let libre_h = pos + 1 >= l.len() || !alfabetico(l[pos + 1]);
            let h = if libre_h {
                numero_antes_exec(l, pos)
            } else {
                None
            };
            if h.is_some() {
                agregar_termino(&mut terminos, h, 0);
                let m = minutos_m_exec(l);
                agregar_termino(&mut terminos, m, 1);
                let sg = segundos_s_exec(l);
                agregar_termino(&mut terminos, sg, 2);
                assert(vista_terminos(terminos@) =~= ta + (termino_de(0, opt_vista(h)) + termino_de(
                    1,
                    minutos_m(l@),
                ) + termino_de(2, segundos_s(l@))));
                return TiempoLeido::Suma(terminos);
            }
        },
        None => {},
    }
    let reloj = reloj_exec(linea);
    let mut minutos: Vec<Termino> = Vec::new();
    let mp = num_de_palabra_exec(l, "minute");
    let mm = minutos_m_exec(l);
    agregar_termino(&mut minutos, o_bien_exec(mp, mm), 1);
    assert(vista_terminos(minutos@) =~= termino_de(1, o_bien(num_de_palabra(l@, "minute"@), minutos_m(l@))));
    let a = primer_de_exec(l, 0, Clase::Digito);
    proof {
        lema_primer_de(l@, 0, Clase::Digito);
    }
    let segundos = if a >= l.len() {
        None
    } else {
        let b = fin_de_exec(l, a, Clase::Digito);
        proof {
            lema_fin_de(l@, a as int, Clase::Digito);
        }
        let d = tramo(l, a, b);
        proof {
            assert forall|i: int| 0 <= i < d.len() implies crate::texto::es_digito(#[trigger] d@[i]) by {
                assert(d@[i] == l@[a + i]);
                assert(es_de(l@[a + i], Clase::Digito));
            }
        }
        if supera(&d, 300) {
            Some(d)
        } else {
            None
        }
    };
    TiempoLeido::Otro { reloj, minutos, segundos }
}

// ── Cabecera ─────────────────────────────────────────────────────────────────

/// Slicer que generó el archivo, según las marcas que deja en la cabecera.
#[derive(Clone, Copy, PartialEq, Eq, Structural)]
pub enum Slicer {
    Desconocido,
    FlashPrint,
    PrusaSlicer,
    Cura,
    SuperSlicer,
    OrcaSlicer,
}

/// Una longitud de filamento leída: en milímetros o en metros.
pub enum Longitud {
    Milimetros(Decimal),
    Metros(Decimal),
}

pub enum LongitudV {
    Milimetros((Seq<u8>, Seq<u8>)),
    Metros((Seq<u8>, Seq<u8>)),
}

impl View for Longitud {
    type V = LongitudV;

    open spec fn view(&self) -> LongitudV {
        match self {
            Longitud::Milimetros(d) => LongitudV::Milimetros(d@),
            Longitud::Metros(d) => LongitudV::Metros(d@),
        }
    }
}

/// Lo leído de la cabecera de un G-code. Cada campo numérico es la lista, en
/// el orden del archivo, de los valores encontrados para él: vale el primero
/// que no sea cero.
pub struct CabeceraGcode {
    pub slicer: Slicer,
    pub tiempo: Vec<TiempoLeido>,
    pub filamento_g: Vec<Decimal>,
    pub filamento_mm: Vec<Longitud>,
    pub capas: Vec<Decimal>,
    pub temp_hotend: Vec<Decimal>,
    pub temp_cama: Vec<Decimal>,
    pub altura_capa: Vec<Decimal>,
    pub relleno_pct: Vec<Decimal>,
}

#[verifier::ext_equal]
pub struct CabeceraV {
    pub slicer: Slicer,
    pub tiempo: Seq<TiempoV>,
    pub filamento_g: Seq<(Seq<u8>, Seq<u8>)>,
    pub filamento_mm: Seq<LongitudV>,
    pub capas: Seq<(Seq<u8>, Seq<u8>)>,
    pub temp_hotend: Seq<(Seq<u8>, Seq<u8>)>,
    pub temp_cama: Seq<(Seq<u8>, Seq<u8>)>,
    pub altura_capa: Seq<(Seq<u8>, Seq<u8>)>,
    pub relleno_pct: Seq<(Seq<u8>, Seq<u8>)>,
}

pub open spec fn vista_decs(v: Seq<Decimal>) -> Seq<(Seq<u8>, Seq<u8>)> {
    v.map_values(|d: Decimal| d@)
}

pub open spec fn vista_tiempos(v: Seq<TiempoLeido>) -> Seq<TiempoV> {
    v.map_values(|t: TiempoLeido| t@)
}

pub open spec fn vista_longs(v: Seq<Longitud>) -> Seq<LongitudV> {
    v.map_values(|t: Longitud| t@)
}

impl View for CabeceraGcode {
    type V = CabeceraV;

    open spec fn view(&self) -> CabeceraV {
        CabeceraV {
            slicer: self.slicer,
            tiempo: vista_tiempos(self.tiempo@),
            filamento_g: vista_decs(self.filamento_g@),
            filamento_mm: vista_longs(self.filamento_mm@),
            capas: vista_decs(self.capas@),
            temp_hotend: vista_decs(self.temp_hotend@),
            temp_cama: vista_decs(self.temp_cama@),
            altura_capa: vista_decs(self.altura_capa@),
            relleno_pct: vista_decs(self.relleno_pct@),
        }
    }
}

/// Marca de slicer de una línea, o `actual` si no tiene ninguna.
pub open spec fn slicer_de(l: Seq<char>, actual: Slicer) -> Slicer {
    if contiene(l, "FlashPrint"@) || contiene(l, "Flashforge"@) || contiene(l, "flashprint"@) {
        Slicer::FlashPrint
    } else if contiene(l, "PrusaSlicer"@) || contiene(l, "prusaslicer"@) {
        Slicer::PrusaSlicer
    } else if contiene(l, "Cura"@) || contiene(l, "cura"@) {
        Slicer::Cura
    } else if contiene(l, "SuperSlicer"@) {
        Slicer::SuperSlicer
    } else if contiene(l, "Orca"@) || contiene(l, "OrcaSlicer"@) {
        Slicer::OrcaSlicer
    } else {
        actual
    }
}

pub open spec fn istrip2(l: Seq<char>, a: Seq<char>, b: Seq<char>) -> Option<Seq<char>> {
    match istrip_spec(l, a) {
        Some(x) => Some(x),
        None => istrip_spec(l, b),
    }
}

pub open spec fn istrip3(l: Seq<char>, a: Seq<char>, b: Seq<char>, c: Seq<char>) -> Option<Seq<char>> {
    match istrip2(l, a, b) {
        Some(x) => Some(x),
        None => istrip_spec(l, c),
    }
}

pub open spec fn istrip4(l: Seq<char>, a: Seq<char>, b: Seq<char>, c: Seq<char>, d: Seq<char>) -> Option<
    Seq<char>,
> {
    match istrip3(l, a, b, c) {
        Some(x) => Some(x),
        None => istrip_spec(l, d),
    }
}

/// Valor leído del resto de una línea: su primer número, si es válido.
pub open spec fn candidato(o: Option<Seq<char>>) -> Seq<(Seq<u8>, Seq<u8>)> {
    match o {
        Some(s) => match primer_numero(s) {
            Some(d) => seq![d],
            None => Seq::empty(),
        },
        None => Seq::empty(),
    }
}

pub open spec fn candidato_mm(o: Option<Seq<char>>) -> Seq<LongitudV> {
    match o {
        Some(s) => match primer_numero(s) {
            Some(d) => seq![LongitudV::Milimetros(d)],
            None => Seq::empty(),
        },
        None => Seq::empty(),
    }
}

pub open spec fn candidato_m(o: Option<Seq<char>>) -> Seq<LongitudV> {
    match o {
        Some(s) => match primer_numero(s) {
            Some(d) => seq![LongitudV::Metros(d)],
            None => Seq::empty(),
        },
        None => Seq::empty(),
    }
}

pub open spec fn si_linea(b: bool, l: Seq<char>) -> Option<Seq<char>> {
    if b {
        Some(l.skip(6))
    } else {
        None
    }
}

pub open spec fn tiempo_si(b: bool, l: Seq<char>) -> Seq<TiempoV> {
    if b {
        seq![tiempo_spec(l)]
    } else {
        Seq::empty()
    }
}

/// Lo que una línea (ya sin blancos en los extremos) agrega a la cabecera.
pub open spec fn procesar_linea(e: CabeceraV, l: Seq<char>) -> CabeceraV {
    CabeceraV {
        slicer: slicer_de(l, e.slicer),
        tiempo: e.tiempo + tiempo_si(
            contiene(l, "Estimated printing time"@) || contiene(l, "estimated printing time"@),
            l,
        ) + tiempo_si(contiene(l, "Print time:"@), l),
        filamento_g: e.filamento_g + candidato(
            istrip2(l, ";   Filament weight:"@, "; Filament weight:"@),
        ) + candidato(istrip2(l, "; filament used [g] ="@, "; filament_used_g ="@)),
        filamento_mm: e.filamento_mm + candidato_mm(
            istrip2(l, ";   Filament length:"@, "; Filament length:"@),
        ) + candidato_mm(istrip_spec(l, "; filament used [mm] ="@)) + candidato_m(
            istrip_spec(l, ";Filament used:"@),
        ),
        capas: e.capas + candidato(
            istrip4(
                l,
                ";   Layer count:"@,
                "; layer_count ="@,
                ";Layer count:"@,
                "; total layer number:"@,
            ),
        ),
        temp_hotend: e.temp_hotend + candidato(
            si_linea(empieza_con(l, "M104 S"@) || empieza_con(l, "M109 S"@), l),
        ),
        temp_cama: e.temp_cama + candidato(
            si_linea(empieza_con(l, "M140 S"@) || empieza_con(l, "M190 S"@), l),
        ),
        altura_capa: e.altura_capa + candidato(
            istrip3(l, ";   Layer height:"@, "; layer_height ="@, ";Layer height:"@),
        ),
        relleno_pct: e.relleno_pct + candidato(
            istrip3(l, ";   Infill:"@, "; fill_density ="@, ";Infill:"@),
        ),
    }
}

pub open spec fn cabecera_vacia() -> CabeceraV {
    CabeceraV {
        slicer: Slicer::Desconocido,
        tiempo: Seq::empty(),
        filamento_g: Seq::empty(),
        filamento_mm: Seq::empty(),
        capas: Seq::empty(),
        temp_hotend: Seq::empty(),
        temp_cama: Seq::empty(),
        altura_capa: Seq::empty(),
        relleno_pct: Seq::empty(),
    }
}

/// Cabecera leída de las líneas `ls` (cada una se recorta antes).
pub open spec fn procesar_lineas(ls: Seq<Seq<char>>) -> CabeceraV
    decreases ls.len(),
{
    if ls.len() == 0 {
        cabecera_vacia()
    } else {
        procesar_linea(procesar_lineas(ls.drop_last()), recortar(ls.last()))
    }
}

/// Cantidad de líneas de cabecera que se leen.
pub open spec fn lineas_leidas() -> int {
    300
}

/// Cabecera de un G-code: se leen sus primeras 300 líneas.
pub open spec fn cabecera_spec(contenido: Seq<char>) -> CabeceraV {
    let ls = lineas(contenido);
    procesar_lineas(ls.take(if ls.len() < lineas_leidas() { ls.len() as int } else { lineas_leidas() }))
}

pub open spec fn vo(o: Option<Vec<char>>) -> Option<Seq<char>> {
    match o {
        Some(v) => Some(v@),
        None => None,
    }
}

fn istrip2_exec(l: &Vec<char>, a: &str, b: &str) -> (r: Option<Vec<char>>)
    ensures
        vo(r) == istrip2(l@, a@, b@),
{
    match istrip(l, a) {
        Some(x) => Some(x),
        None => istrip(l, b),
    }
}

fn istrip3_exec(l: &Vec<char>, a: &str, b: &str, c: &str) -> (r: Option<Vec<char>>)
    ensures
        vo(r) == istrip3(l@, a@, b@, c@),
{
    match istrip2_exec(l, a, b) {
        Some(x) => Some(x),
        None => istrip(l, c),
    }
}

fn istrip4_exec(l: &Vec<char>, a: &str, b: &str, c: &str, d: &str) -> (r: Option<Vec<char>>)
    ensures
        vo(r) == istrip4(l@, a@, b@, c@, d@),
{
    match istrip3_exec(l, a, b, c) {
        Some(x) => Some(x),
        None => istrip(l, d),
    }
}

fn istrip1_exec(l: &Vec<char>, a: &str) -> (r: Option<Vec<char>>)
    ensures
        vo(r) == istrip_spec(l@, a@),
{
    istrip(l, a)
}

fn agregar_candidato(v: &mut Vec<Decimal>, o: Option<Vec<char>>)
    ensures
        vista_decs(final(v)@) == vista_decs(old(v)@) + candidato(vo(o)),
{
    let ghost antes = v@;
    match o {
        Some(s) => match primer_numero_exec(&s) {
            Some(d) => {
                v.push(d);
                assert(vista_decs(v@) =~= vista_decs(antes) + candidato(Some(s@)));
            },
            None => {
                assert(vista_decs(v@) =~= vista_decs(antes) + candidato(Some(s@)));
            },
        },
        None => {
            assert(vista_decs(v@) =~= vista_decs(antes) + candidato(None));
        },
    }
}

fn agregar_longitud(v: &mut Vec<Longitud>, o: Option<Vec<char>>, metros: bool)
    ensures
        vista_longs(final(v)@) == vista_longs(old(v)@) + (if metros {
            candidato_m(vo(o))
        } else {
            candidato_mm(vo(o))
        }),
{
    let ghost antes = v@;
    match o {
        Some(s) => match primer_numero_exec(&s) {
            Some(d) => {
                if metros {
                    v.push(Longitud::Metros(d));
                } else {
                    v.push(Longitud::Milimetros(d));
                }
                assert(vista_longs(v@) =~= vista_longs(antes) + (if metros {
                    candidato_m(Some(s@))
                } else {
                    candidato_mm(Some(s@))
                }));
            },
            None => {
                assert(vista_longs(v@) =~= vista_longs(antes) + (if metros {
                    candidato_m(Some(s@))
                } else {
                    candidato_mm(Some(s@))
                }));
            },
        },
        None => {
            assert(vista_longs(v@) =~= vista_longs(antes) + (if metros {
                candidato_m(None)
            } else {
                candidato_mm(None)
            }));
        },
    }
}

fn agregar_tiempo(v: &mut Vec<TiempoLeido>, b: bool, l: &Vec<char>)
    ensures
        vista_tiempos(final(v)@) == vista_tiempos(old(v)@) + tiempo_si(b, l@),
{
    let ghost antes = v@;
    if b {
        let t = parse_tiempo(l);
        v.push(t);
    }
    assert(vista_tiempos(v@) =~= vista_tiempos(antes) + tiempo_si(b, l@));
}

fn contiene_lit(l: &Vec<char>, p: &str) -> (r: bool)
    ensures
        r == contiene(l@, p@),
{
    let pv = chars_de(p);
    contiene_exec(l, &pv)
}

fn empieza_lit(l: &Vec<char>, p: &str) -> (r: bool)
    ensures
        r == empieza_con(l@, p@),
{
    let pv = chars_de(p);
    empieza_con_exec(l, &pv)
}

fn resto_temp(l: &Vec<char>, b: bool) -> (r: Option<Vec<char>>)
    requires
        b ==> l.len() >= 6,
    ensures
        vo(r) == si_linea(b, l@),
{
    if b {
        Some(desde(l, 6))
    } else {
        None
    }
}

fn slicer_exec(l: &Vec<char>, actual: Slicer) -> (r: Slicer)
    ensures
        r == slicer_de(l@, actual),
{
    if contiene_lit(l, "FlashPrint") || contiene_lit(l, "Flashforge") || contiene_lit(l, "flashprint") {
        Slicer::FlashPrint
    } else if contiene_lit(l, "PrusaSlicer") || contiene_lit(l, "prusaslicer") {
        Slicer::PrusaSlicer
    } else if contiene_lit(l, "Cura") || contiene_lit(l, "cura") {
        Slicer::Cura
    } else if contiene_lit(l, "SuperSlicer") {
        Slicer::SuperSlicer
    } else if contiene_lit(l, "Orca") || contiene_lit(l, "OrcaSlicer") {
        Slicer::OrcaSlicer
    } else {
        actual
    }
}

/// Agrega a `e` lo que dice la línea `l` (ya recortada).
pub fn procesar_linea_exec(e: &mut CabeceraGcode, l: &Vec<char>)
    ensures
        final(e)@ == procesar_linea(old(e)@, l@),
{
    e.slicer = slicer_exec(l, e.slicer);
    let est = contiene_lit(l, "Estimated printing time") || contiene_lit(l, "estimated printing time");
    agregar_tiempo(&mut e.tiempo, est, l);
    let pt = contiene_lit(l, "Print time:");
    agregar_tiempo(&mut e.tiempo, pt, l);
    let o = istrip2_exec(l, ";   Filament weight:", "; Filament weight:");
    agregar_candidato(&mut e.filamento_g, o);
    let o = istrip2_exec(l, "; filament used [g] =", "; filament_used_g =");
    agregar_candidato(&mut e.filamento_g, o);
    let o = istrip2_exec(l, ";   Filament length:", "; Filament length:");
    agregar_longitud(&mut e.filamento_mm, o, false);
    let o = istrip1_exec(l, "; filament used [mm] =");
    agregar_longitud(&mut e.filamento_mm, o, false);
    let o = istrip1_exec(l, ";Filament used:");
    agregar_longitud(&mut e.filamento_mm, o, true);
    let o = istrip4_exec(
        l,
        ";   Layer count:",
        "; layer_count =",
        ";Layer count:",
        "; total layer number:",
    );
    agregar_candidato(&mut e.capas, o);
    let o = istrip3_exec(l, ";   Layer height:", "; layer_height =", ";Layer height:");
    agregar_candidato(&mut e.altura_capa, o);
    let o = istrip3_exec(l, ";   Infill:", "; fill_density =", ";Infill:");
    agregar_candidato(&mut e.relleno_pct, o);
    let h1 = empieza_lit(l, "M104 S");
    let h2 = empieza_lit(l, "M109 S");
    proof {
        reveal_strlit("M104 S");
        reveal_strlit("M109 S");
        reveal_strlit("M140 S");
        reveal_strlit("M190 S");
    }
    let o = resto_temp(l, h1 || h2);
    agregar_candidato(&mut e.temp_hotend, o);
    let c1 = empieza_lit(l, "M140 S");
    let c2 = empieza_lit(l, "M190 S");
    let o = resto_temp(l, c1 || c2);
    agregar_candidato(&mut e.temp_cama, o);
}

fn cabecera_nueva() -> (e: CabeceraGcode)
    ensures
        e@ == cabecera_vacia(),
{
    let e = CabeceraGcode {
        slicer: Slicer::Desconocido,
        tiempo: Vec::new(),
        filamento_g: Vec::new(),
        filamento_mm: Vec::new(),
        capas: Vec::new(),
        temp_hotend: Vec::new(),
        temp_cama: Vec::new(),
        altura_capa: Vec::new(),
        relleno_pct: Vec::new(),
    };
    assert(vista_decs(e.capas@) =~= Seq::empty());
    assert(vista_longs(e.filamento_mm@) =~= Seq::empty());
    assert(vista_tiempos(e.tiempo@) =~= Seq::empty());
    assert(e@ =~= cabecera_vacia());
    e
}

/// Lee la cabecera de un G-code (sus primeras 300 líneas, cada una recortada).
pub fn leer_cabecera(contenido: &str) -> (r: CabeceraGcode)
    ensures
        r@ == cabecera_spec(contenido@),
{
    let cs = chars_de(contenido);
    let ls = lineas_exec(&cs, 300);
    let ghost lv = ls@.map_values(|v: Vec<char>| v@);
    let mut e = cabecera_nueva();
    assert(e@ == procesar_lineas(lv.take(0)));
    let mut i: usize = 0;
    while i < ls.len()
        invariant
            i <= ls.len(),
            lv == ls@.map_values(|v: Vec<char>| v@),
            e@ == procesar_lineas(lv.take(i as int)),
        decreases ls.len() - i,
    {
        let l = recortar_exec(&ls[i]);
        procesar_linea_exec(&mut e, &l);
        assert(lv.take(i + 1).drop_last() =~= lv.take(i as int));
        assert(lv.take(i + 1).last() == ls@[i as int]@);
        i = i + 1;
    }
    assert(lv.take(ls.len() as int) =~= lv);
    e
}

// ── Valor que vale ───────────────────────────────────────────────────────────

/// Todos los dígitos valen cero.
pub open spec fn todos_cero(d: Seq<u8>) -> bool {
    forall|i: int| 0 <= i < d.len() ==> d[i] == 0
}

/// El decimal vale cero (`entero`: mirando sólo su parte entera, como queda
/// al pasarlo a un entero).
pub open spec fn nulo(d: (Seq<u8>, Seq<u8>), entero: bool) -> bool {
    todos_cero(d.0) && (entero || todos_cero(d.1))
}

/// `r` es la posición del primer candidato no nulo de `v`, o `None` si todos
/// son nulos.
pub open spec fn primero_no_nulo(v: Seq<(Seq<u8>, Seq<u8>)>, entero: bool, r: Option<usize>) -> bool {
    match r {
        Some(k) => k < v.len() && !nulo(v[k as int], entero) && forall|j: int| 0 <= j < k ==> nulo(#[trigger] v[j], entero),
        None => forall|j: int| 0 <= j < v.len() ==> nulo(#[trigger] v[j], entero),
    }
}

pub open spec fn decimal_de_longitud(l: LongitudV) -> (Seq<u8>, Seq<u8>) {
    match l {
        LongitudV::Milimetros(d) => d,
        LongitudV::Metros(d) => d,
    }
}

fn ceros(d: &Vec<u8>) -> (r: bool)
    ensures
        r == todos_cero(d@),
{
    let mut i: usize = 0;
    while i < d.len()
        invariant
            i <= d.len(),
            forall|k: int| 0 <= k < i ==> d@[k] == 0,
        decreases d.len() - i,
    {
        if d[i] != 0 {
            return false;
        }
        i = i + 1;
    }
    true
}

fn es_nulo(d: &Decimal, entero: bool) -> (r: bool)
    ensures
        r == nulo(d@, entero),
{
    ceros(&d.entero) && (entero || ceros(&d.fraccion))
}

/// Posición del candidato que vale: el primero que no es cero (ver
/// `primero_no_nulo`). Con `entero`, un candidato cuenta como cero si su parte
/// entera lo es (para capas y temperaturas, que se toman como enteros).
pub fn primer_valor(cands: &Vec<Decimal>, entero: bool) -> (r: Option<usize>)
    ensures
        primero_no_nulo(vista_decs(cands@), entero, r),
{
    let ghost v = vista_decs(cands@);
    let mut i: usize = 0;
    while i < cands.len()
        invariant
            i <= cands.len(),
            v == vista_decs(cands@),
            forall|j: int| 0 <= j < i ==> nulo(#[trigger] v[j], entero),
        decreases cands.len() - i,
    {
        if !es_nulo(&cands[i], entero) {
            return Some(i);
        }
        i = i + 1;
    }
    None
}

/// Posición de la primera longitud de filamento que no es cero.
pub fn primera_longitud(cands: &Vec<Longitud>) -> (r: Option<usize>)
    ensures
        primero_no_nulo(vista_longs(cands@).map_values(|l: LongitudV| decimal_de_longitud(l)), false, r),
{
    let ghost v = vista_longs(cands@).map_values(|l: LongitudV| decimal_de_longitud(l));
    let mut i: usize = 0;
    while i < cands.len()
        invariant
            i <= cands.len(),
            v == vista_longs(cands@).map_values(|l: LongitudV| decimal_de_longitud(l)),
            forall|j: int| 0 <= j < i ==> nulo(#[trigger] v[j], false),
        decreases cands.len() - i,
    {
        let d = match &cands[i] {
            Longitud::Milimetros(d) => d,
            Longitud::Metros(d) => d,
        };
        if !es_nulo(d, false) {
            return Some(i);
        }
        i = i + 1;
    }
    None
}


/// Lo que sigue a las primeras 300 líneas completas de un archivo no cambia
/// lo que se lee de su cabecera.
pub proof fn ley_cabecera_primeras_lineas(c1: Seq<char>, c2: Seq<char>)
    requires
        c1.len() > 0,
        c1.last() == '\n',
        lineas(c1).len() >= lineas_leidas(),
    ensures
        cabecera_spec(c1 + c2) == cabecera_spec(c1),
{
    crate::texto::lema_lineas_concat(c1, c2, 0);
    let l1 = lineas(c1);
    let l = lineas(c1 + c2);
    assert(l == l1 + lineas(c2));
    assert(l.take(lineas_leidas()) =~= l1.take(lineas_leidas()));
}


// ── Temperaturas escritas y leídas ───────────────────────────────────────────

/// La línea (recortada) es un comando de temperatura que la cabecera lee.
pub open spec fn es_temperatura(l: Seq<char>) -> bool {
    empieza_con(l, "M104 S"@) || empieza_con(l, "M109 S"@) || empieza_con(l, "M140 S"@) || empieza_con(
        l,
        "M190 S"@,
    )
}

spec fn cama_de_linea(l: Seq<char>) -> Seq<(Seq<u8>, Seq<u8>)> {
    candidato(si_linea(empieza_con(l, "M140 S"@) || empieza_con(l, "M190 S"@), l))
}

spec fn hotend_de_linea(l: Seq<char>) -> Seq<(Seq<u8>, Seq<u8>)> {
    candidato(si_linea(empieza_con(l, "M104 S"@) || empieza_con(l, "M109 S"@), l))
}

/// Candidatos de temperatura de cama de las líneas `ls`.
spec fn camas(ls: Seq<Seq<char>>) -> Seq<(Seq<u8>, Seq<u8>)>
    decreases ls.len(),
{
    if ls.len() == 0 {
        Seq::empty()
    } else {
        camas(ls.drop_last()) + cama_de_linea(recortar(ls.last()))
    }
}

/// Candidatos de temperatura de hotend de las líneas `ls`.
spec fn hotends(ls: Seq<Seq<char>>) -> Seq<(Seq<u8>, Seq<u8>)>
    decreases ls.len(),
{
    if ls.len() == 0 {
        Seq::empty()
    } else {
        hotends(ls.drop_last()) + hotend_de_linea(recortar(ls.last()))
    }
}

proof fn lema_camas(ls: Seq<Seq<char>>)
    ensures
        procesar_lineas(ls).temp_cama == camas(ls),
        procesar_lineas(ls).temp_hotend == hotends(ls),
    decreases ls.len(),
{
    if ls.len() > 0 {
        lema_camas(ls.drop_last());
    }
}

proof fn lema_camas_concat(a: Seq<Seq<char>>, b: Seq<Seq<char>>)
    ensures
        camas(a + b) == camas(a) + camas(b),
        hotends(a + b) == hotends(a) + hotends(b),
    decreases b.len(),
{
    if b.len() == 0 {
        assert(a + b =~= a);
        assert(camas(a) + camas(b) =~= camas(a));
        assert(hotends(a) + hotends(b) =~= hotends(a));
    } else {
        lema_camas_concat(a, b.drop_last());
        assert((a + b).drop_last() =~= a + b.drop_last());
        assert((a + b).last() == b.last());
        assert(camas(a + b) =~= camas(a) + camas(b));
        assert(hotends(a + b) =~= hotends(a) + hotends(b));
    }
}

proof fn lema_sin_temperaturas(ls: Seq<Seq<char>>)
    requires
        forall|k: int| 0 <= k < ls.len() ==> !es_temperatura(recortar(#[trigger] ls[k])),
    ensures
        camas(ls) == Seq::<(Seq<u8>, Seq<u8>)>::empty(),
        hotends(ls) == Seq::<(Seq<u8>, Seq<u8>)>::empty(),
    decreases ls.len(),
{
    if ls.len() > 0 {
        assert(!es_temperatura(recortar(ls[ls.len() - 1])));
        lema_sin_temperaturas(ls.drop_last());
        assert(camas(ls) =~= Seq::<(Seq<u8>, Seq<u8>)>::empty());
        assert(hotends(ls) =~= Seq::<(Seq<u8>, Seq<u8>)>::empty());
    }
}

proof fn lema_camas_uno(x: Seq<char>)
    ensures
        camas(seq![x]) == cama_de_linea(recortar(x)),
        hotends(seq![x]) == hotend_de_linea(recortar(x)),
{
    assert(seq![x].drop_last() =~= Seq::<Seq<char>>::empty());
    assert(seq![x].last() == x);
    assert(camas(seq![x].drop_last()) == Seq::<(Seq<u8>, Seq<u8>)>::empty());
    assert(hotends(seq![x].drop_last()) == Seq::<(Seq<u8>, Seq<u8>)>::empty());
    assert(camas(seq![x]) =~= cama_de_linea(recortar(x)));
    assert(hotends(seq![x]) =~= hotend_de_linea(recortar(x)));
}

/// Una línea de temperatura `pref` + dígitos `d` + comentario `suf`: sin
/// saltos, igual a sí misma recortada, y lo que sigue al comando se lee como el
/// entero de `d`.
proof fn lema_linea_temp(pref: Seq<char>, d: Seq<char>, suf: Seq<char>)
    requires
        pref.len() == 6,
        forall|k: int| 0 <= k < 6 ==> pref[k] != '\n',
        !es_blanco(pref[0]),
        d.len() > 0,
        forall|k: int| 0 <= k < d.len() ==> crate::texto::es_digito(#[trigger] d[k]),
        suf.len() > 0,
        suf[0] == ' ',
        forall|k: int| 0 <= k < suf.len() ==> suf[k] != '\n',
        suf.last() != '\r',
        !es_blanco(suf.last()),
    ensures
        ({
            let l = pref + d + suf;
            &&& forall|k: int| 0 <= k < l.len() ==> l[k] != '\n'
            &&& l.last() != '\r'
            &&& recortar(l) == l
            &&& l[0] == pref[0] && l[1] == pref[1] && l[2] == pref[2] && l[3] == pref[3]
            &&& candidato(Some(l.skip(6))) == seq![(crate::numeros::valores(d), Seq::<u8>::empty())]
        }),
{
    let l = pref + d + suf;
    assert forall|k: int| 0 <= k < l.len() implies l[k] != '\n' by {
        if k < 6 {
            assert(l[k] == pref[k]);
        } else if k < 6 + d.len() {
            assert(l[k] == d[k - 6]);
            assert(crate::texto::es_digito(d[k - 6]));
        } else {
            assert(l[k] == suf[k - 6 - d.len()]);
        }
    }
    assert(l.last() == suf.last());
    assert(l[0] == pref[0]);
    crate::texto::lema_recortar_igual(l);
    assert(l.skip(6) =~= d + suf);
    crate::numeros::lema_numero_de_digitos(d, suf);
}

proof fn lema_no_nulo(n: u32)
    requires
        n > 0,
    ensures
        !nulo((crate::numeros::valores(decimal_u32(n as nat)), Seq::<u8>::empty()), true),
{
    let d = decimal_u32(n as nat);
    crate::gcode::lema_decimal_digitos(n as nat);
    let k = choose|k: int| 0 <= k < d.len() && #[trigger] d[k] != '0';
    assert(crate::texto::es_digito(d[k]));
    assert(crate::numeros::valores(d)[k] != 0);
}

/// Las cinco primeras líneas del bloque de inicio.
spec fn bloque_cinco() -> Seq<Seq<char>> {
    seq!["; === INICIO ==="@, "G21        ; unidades en mm"@, "G90        ; posicionamiento absoluto"@, "M82        ; extrusión absoluta"@, "M107       ; ventilador apagado (primera capa sin cooling)"@]
}

/// La línea del bloque de inicio con la temperatura de cama.
spec fn linea_cama(cama: u32) -> Seq<char> {
    "M140 S"@ + decimal_u32(cama as nat) + "   ; temperatura cama (no bloquea)"@
}

/// La línea del bloque de inicio con la temperatura del hotend.
spec fn linea_hotend(hotend: u32) -> Seq<char> {
    "M104 S"@ + decimal_u32(hotend as nat) + "  ; temperatura hotend (no bloquea)"@
}

/// Lo que sigue a la séptima línea del bloque de inicio.
spec fn bloque_resto(cama: u32, hotend: u32) -> Seq<char> {
    "M190 S"@ + decimal_u32(cama as nat) + "   ; esperar cama\nM109 S"@ + decimal_u32(hotend as nat) + "  ; esperar hotend\nG28        ; home todos los ejes\nG92 E0     ; reset extrusor\n; --- Línea de purga ---\nG1 Z0.30 F3000\nG1 X10.0 Y20.0 F5000\nG1 X10.0 Y190.0 E14.0 F1500\nG92 E0\n\n"@
}

spec fn bloque_siete(cama: u32, hotend: u32) -> Seq<Seq<char>> {
    bloque_cinco() + seq![linea_cama(cama)] + seq![linea_hotend(hotend)]
}

spec fn linea_ok(l: Seq<char>) -> bool {
    &&& forall|k: int| 0 <= k < l.len() ==> l[k] != '\n'
    &&& l.len() == 0 || l.last() != '\r'
}

proof fn lema_p1()
    ensures
        ({
            let c = bloque_cinco();
            let nl = seq!['\n'];
            "; === INICIO ===\nG21        ; unidades en mm\nG90        ; posicionamiento absoluto\nM82        ; extrusión absoluta\nM107       ; ventilador apagado (primera capa sin cooling)\nM140 S"@ =~= c[0] + nl + c[1] + nl + c[2] + nl + c[3] + nl + c[4] + nl + "M140 S"@
        }),
{
    reveal_strlit("; === INICIO ===");
    reveal_strlit("G21        ; unidades en mm");
    reveal_strlit("G90        ; posicionamiento absoluto");
    reveal_strlit("M82        ; extrusión absoluta");
    reveal_strlit("M107       ; ventilador apagado (primera capa sin cooling)");
    reveal_strlit("M140 S");
    reveal_strlit("; === INICIO ===\nG21        ; unidades en mm\nG90        ; posicionamiento absoluto\nM82        ; extrusión absoluta\nM107       ; ventilador apagado (primera capa sin cooling)\nM140 S");
}

proof fn lema_p2_p3()
    ensures
        "   ; temperatura cama (no bloquea)\nM104 S"@ =~= "   ; temperatura cama (no bloquea)"@ + seq!['\n'] + "M104 S"@,
        "  ; temperatura hotend (no bloquea)\nM190 S"@ =~= "  ; temperatura hotend (no bloquea)"@ + seq!['\n'] + "M190 S"@,
{
    reveal_strlit("M104 S");
    reveal_strlit("M190 S");
    reveal_strlit("   ; temperatura cama (no bloquea)");
    reveal_strlit("  ; temperatura hotend (no bloquea)");
    reveal_strlit("   ; temperatura cama (no bloquea)\nM104 S");
    reveal_strlit("  ; temperatura hotend (no bloquea)\nM190 S");
}

#[verifier::rlimit(50)]
proof fn lema_bloque_texto(cama: u32, hotend: u32)
    ensures
        ({
            let c = bloque_cinco();
            let nl = seq!['\n'];
            texto_inicio_gcode(cama, hotend) =~= c[0] + nl + (c[1] + nl + (c[2] + nl + (c[3] + nl + (c[4] + nl + (
            linea_cama(cama) + nl + (linea_hotend(hotend) + nl + bloque_resto(cama, hotend)))))))
        }),
{
    lema_p1();
    lema_p2_p3();
}

proof fn lema_cinco_fijas()
    ensures
        forall|k: int| 0 <= k < 5 ==> {
            let l = #[trigger] bloque_cinco()[k];
            &&& linea_ok(l)
            &&& recortar(l) == l
            &&& !es_temperatura(l)
        },
{
    reveal_strlit("M104 S");
    reveal_strlit("M109 S");
    reveal_strlit("M140 S");
    reveal_strlit("M190 S");
    let c = bloque_cinco();
    assert(linea_ok(c[0]) && recortar(c[0]) == c[0] && !es_temperatura(c[0])) by {
        reveal_strlit("; === INICIO ===");
        crate::texto::lema_recortar_igual(c[0]);
    }
    assert(linea_ok(c[1]) && recortar(c[1]) == c[1] && !es_temperatura(c[1])) by {
        reveal_strlit("G21        ; unidades en mm");
        crate::texto::lema_recortar_igual(c[1]);
        crate::texto::lema_no_empieza(c[1], "M104 S"@, 0);
        crate::texto::lema_no_empieza(c[1], "M109 S"@, 0);
        crate::texto::lema_no_empieza(c[1], "M140 S"@, 0);
        crate::texto::lema_no_empieza(c[1], "M190 S"@, 0);
    }
    assert(linea_ok(c[2]) && recortar(c[2]) == c[2] && !es_temperatura(c[2])) by {
        reveal_strlit("G90        ; posicionamiento absoluto");
        crate::texto::lema_recortar_igual(c[2]);
        crate::texto::lema_no_empieza(c[2], "M104 S"@, 0);
        crate::texto::lema_no_empieza(c[2], "M109 S"@, 0);
        crate::texto::lema_no_empieza(c[2], "M140 S"@, 0);
        crate::texto::lema_no_empieza(c[2], "M190 S"@, 0);
    }
    assert(linea_ok(c[3]) && recortar(c[3]) == c[3] && !es_temperatura(c[3])) by {
        reveal_strlit("M82        ; extrusión absoluta");
        crate::texto::lema_recortar_igual(c[3]);
        crate::texto::lema_no_empieza(c[3], "M104 S"@, 1);
        crate::texto::lema_no_empieza(c[3], "M109 S"@, 1);
        crate::texto::lema_no_empieza(c[3], "M140 S"@, 1);
        crate::texto::lema_no_empieza(c[3], "M190 S"@, 1);
    }
    assert(linea_ok(c[4]) && recortar(c[4]) == c[4] && !es_temperatura(c[4])) by {
        reveal_strlit("M107       ; ventilador apagado (primera capa sin cooling)");
        crate::texto::lema_recortar_igual(c[4]);
        crate::texto::lema_no_empieza(c[4], "M104 S"@, 3);
        crate::texto::lema_no_empieza(c[4], "M109 S"@, 3);
        crate::texto::lema_no_empieza(c[4], "M140 S"@, 2);
        crate::texto::lema_no_empieza(c[4], "M190 S"@, 2);
    }
}

proof fn lema_lineas_temp(cama: u32, hotend: u32)
    ensures
        linea_ok(linea_cama(cama)),
        linea_ok(linea_hotend(hotend)),
        cama_de_linea(recortar(linea_cama(cama))) == seq![(crate::numeros::valores(decimal_u32(cama as nat)), Seq::<u8>::empty())],
        hotend_de_linea(recortar(linea_cama(cama))) == Seq::<(Seq<u8>, Seq<u8>)>::empty(),
        cama_de_linea(recortar(linea_hotend(hotend))) == Seq::<(Seq<u8>, Seq<u8>)>::empty(),
        hotend_de_linea(recortar(linea_hotend(hotend))) == seq![(crate::numeros::valores(decimal_u32(hotend as nat)), Seq::<u8>::empty())],
{
    reveal_strlit("M104 S");
    reveal_strlit("M109 S");
    reveal_strlit("M140 S");
    reveal_strlit("M190 S");
    reveal_strlit("   ; temperatura cama (no bloquea)");
    reveal_strlit("  ; temperatura hotend (no bloquea)");
    let d1 = decimal_u32(cama as nat);
    let d2 = decimal_u32(hotend as nat);
    crate::gcode::lema_decimal_digitos(cama as nat);
    crate::gcode::lema_decimal_digitos(hotend as nat);
    let l6 = linea_cama(cama);
    let l7 = linea_hotend(hotend);
    lema_linea_temp("M140 S"@, d1, "   ; temperatura cama (no bloquea)"@);
    lema_linea_temp("M104 S"@, d2, "  ; temperatura hotend (no bloquea)"@);
    crate::texto::lema_no_empieza(l6, "M104 S"@, 2);
    crate::texto::lema_no_empieza(l6, "M109 S"@, 2);
    crate::texto::lema_no_empieza(l7, "M140 S"@, 2);
    crate::texto::lema_no_empieza(l7, "M190 S"@, 2);
    assert(empieza_con(l6, "M140 S"@)) by {
        assert(l6.subrange(0, 6) =~= "M140 S"@);
    }
    assert(empieza_con(l7, "M104 S"@)) by {
        assert(l7.subrange(0, 6) =~= "M104 S"@);
    }
}

#[verifier::spinoff_prover]
#[verifier::rlimit(60)]
proof fn lema_bloque_lineas(cama: u32, hotend: u32, resto: Seq<char>)
    ensures
        lineas(texto_inicio_gcode(cama, hotend) + resto) == bloque_siete(cama, hotend) + lineas(bloque_resto(cama, hotend) + resto),
{
    lema_bloque_texto(cama, hotend);
    lema_cinco_fijas();
    lema_lineas_temp(cama, hotend);
    let c = bloque_cinco();
    let nl = seq!['\n'];
    let l6 = linea_cama(cama);
    let l7 = linea_hotend(hotend);
    assert(linea_ok(c[0]) && linea_ok(c[1]) && linea_ok(c[2]) && linea_ok(c[3]) && linea_ok(c[4]));
    let z7 = bloque_resto(cama, hotend) + resto;
    let z6 = l7 + nl + z7;
    let z5 = l6 + nl + z6;
    let z4 = c[4] + nl + z5;
    let z3 = c[3] + nl + z4;
    let z2 = c[2] + nl + z3;
    let z1 = c[1] + nl + z2;
    let y = c[0] + nl + z1;
    assert(texto_inicio_gcode(cama, hotend) + resto =~= y);
    crate::texto::lema_primera_linea(l7, z7);
    crate::texto::lema_primera_linea(l6, z6);
    crate::texto::lema_primera_linea(c[4], z5);
    crate::texto::lema_primera_linea(c[3], z4);
    crate::texto::lema_primera_linea(c[2], z3);
    crate::texto::lema_primera_linea(c[1], z2);
    crate::texto::lema_primera_linea(c[0], z1);
    assert(lineas(y) =~= bloque_siete(cama, hotend) + lineas(z7));
}

proof fn lema_bloque_temps(cama: u32, hotend: u32)
    ensures
        camas(bloque_siete(cama, hotend)) == seq![(crate::numeros::valores(decimal_u32(cama as nat)), Seq::<u8>::empty())],
        hotends(bloque_siete(cama, hotend)) == seq![(crate::numeros::valores(decimal_u32(hotend as nat)), Seq::<u8>::empty())],
{
    lema_cinco_fijas();
    lema_lineas_temp(cama, hotend);
    let c = bloque_cinco();
    assert forall|k: int| 0 <= k < c.len() implies !es_temperatura(recortar(#[trigger] c[k])) by {
        assert(recortar(c[k]) == c[k]);
    }
    lema_sin_temperaturas(c);
    lema_camas_uno(linea_cama(cama));
    lema_camas_uno(linea_hotend(hotend));
    lema_camas_concat(c, seq![linea_cama(cama)]);
    lema_camas_concat(c + seq![linea_cama(cama)], seq![linea_hotend(hotend)]);
    assert(camas(bloque_siete(cama, hotend)) =~= seq![(crate::numeros::valores(decimal_u32(cama as nat)), Seq::<u8>::empty())]);
    assert(hotends(bloque_siete(cama, hotend)) =~= seq![(crate::numeros::valores(decimal_u32(hotend as nat)), Seq::<u8>::empty())]);
}

/// Lo que el bloque de inicio escribe se lee de vuelta: en un G-code que
/// empieza con líneas que no son de temperatura (a lo sumo 293, terminadas en
/// salto) y sigue con el bloque de inicio, el primer candidato de temperatura
/// de cama es la de la cama escrita y el de hotend la del hotend escrito; si
/// son positivas, son los valores que valen.
#[verifier::spinoff_prover]
#[verifier::rlimit(60)]
pub proof fn ley_temperaturas_releidas(pre: Seq<char>, cama: u32, hotend: u32, resto: Seq<char>)
    requires
        pre.len() == 0 || pre.last() == '\n',
        lineas(pre).len() + 7 <= lineas_leidas(),
        forall|k: int| 0 <= k < lineas(pre).len() ==> !es_temperatura(recortar(#[trigger] lineas(pre)[k])),
    ensures
        ({
            let c = cabecera_spec(pre + texto_inicio_gcode(cama, hotend) + resto);
            &&& c.temp_cama.len() >= 1
            &&& c.temp_cama[0] == (crate::numeros::valores(decimal_u32(cama as nat)), Seq::<u8>::empty())
            &&& c.temp_hotend.len() >= 1
            &&& c.temp_hotend[0] == (crate::numeros::valores(decimal_u32(hotend as nat)), Seq::<u8>::empty())
            &&& cama > 0 ==> primero_no_nulo(c.temp_cama, true, Some(0usize))
            &&& hotend > 0 ==> primero_no_nulo(c.temp_hotend, true, Some(0usize))
        }),
{
    let t = texto_inicio_gcode(cama, hotend);
    let y = t + resto;
    let siete = bloque_siete(cama, hotend);
    let z = lineas(bloque_resto(cama, hotend) + resto);
    lema_bloque_lineas(cama, hotend, resto);
    let full = pre + t + resto;
    assert(full =~= pre + y);
    let lp = lineas(pre);
    if pre.len() > 0 {
        crate::texto::lema_lineas_concat(pre, y, 0);
    } else {
        assert(pre + y =~= y);
        assert(lp =~= Seq::<Seq<char>>::empty());
    }
    let ls = lineas(full);
    assert(ls =~= lp + siete + z);
    let n = if ls.len() < lineas_leidas() { ls.len() as int } else { lineas_leidas() };
    let w = z.take(n - lp.len() - 7);
    assert(ls.take(n) =~= lp + siete + w);
    lema_sin_temperaturas(lp);
    lema_bloque_temps(cama, hotend);
    lema_camas_concat(lp, siete);
    lema_camas_concat(lp + siete, w);
    lema_camas(ls.take(n));
    let c = cabecera_spec(full);
    let v1 = (crate::numeros::valores(decimal_u32(cama as nat)), Seq::<u8>::empty());
    let v2 = (crate::numeros::valores(decimal_u32(hotend as nat)), Seq::<u8>::empty());
    assert(camas(lp + siete) =~= seq![v1]);
    assert(hotends(lp + siete) =~= seq![v2]);
    assert(c.temp_cama == seq![v1] + camas(w));
    assert(c.temp_hotend == seq![v2] + hotends(w));
    assert(c.temp_cama[0] == v1);
    assert(c.temp_hotend[0] == v2);
    if cama > 0 {
        lema_no_nulo(cama);
    }
    if hotend > 0 {
        lema_no_nulo(hotend);
    }
}


// ── Marca de slicer y cantidad de capas ──────────────────────────────────────

/// Una línea que contiene `OrcaSlicer` contiene `Orca`.
proof fn lema_orca(l: Seq<char>)
    ensures
        contiene(l, "OrcaSlicer"@) ==> contiene(l, "Orca"@),
{
    if contiene(l, "OrcaSlicer"@) {
        reveal_strlit("OrcaSlicer");
        reveal_strlit("Orca");
        lema_buscar(l, "OrcaSlicer"@, 0);
        let k = buscar(l, "OrcaSlicer"@)->0;
        assert(aparece_en(l, "OrcaSlicer"@, k));
        assert(l.subrange(k, k + 10) == "OrcaSlicer"@);
        assert("OrcaSlicer"@.subrange(0, 4) =~= "Orca"@);
        assert(l.subrange(k, k + 4) =~= l.subrange(k, k + 10).subrange(0, 4));
        assert(aparece_en(l, "Orca"@, k));
        lema_aparece_contiene(l, "Orca"@, k);
    }
}

/// El slicer que se lee de una línea: FlashPrint si la línea menciona
/// `FlashPrint`, `Flashforge` o `flashprint`; si no, PrusaSlicer si menciona
/// `PrusaSlicer` o `prusaslicer`; si no, Cura si menciona `Cura` o `cura`;
/// si no, SuperSlicer si menciona `SuperSlicer`; si no, OrcaSlicer si
/// menciona `Orca`. Una línea sin ninguna de esas marcas deja el slicer que
/// ya se tenía.
pub proof fn ley_marca_de_slicer(e: CabeceraV, l: Seq<char>)
    ensures
        ({
            let s = procesar_linea(e, l).slicer;
            let flash = contiene(l, "FlashPrint"@) || contiene(l, "Flashforge"@) || contiene(l, "flashprint"@);
            let prusa = contiene(l, "PrusaSlicer"@) || contiene(l, "prusaslicer"@);
            let cura = contiene(l, "Cura"@) || contiene(l, "cura"@);
            let sup = contiene(l, "SuperSlicer"@);
            let orca = contiene(l, "Orca"@);
            &&& flash ==> s == Slicer::FlashPrint
            &&& !flash && prusa ==> s == Slicer::PrusaSlicer
            &&& !flash && !prusa && cura ==> s == Slicer::Cura
            &&& !flash && !prusa && !cura && sup ==> s == Slicer::SuperSlicer
            &&& !flash && !prusa && !cura && !sup && orca ==> s == Slicer::OrcaSlicer
            &&& !flash && !prusa && !cura && !sup && !orca ==> s == e.slicer
        }),
{
    lema_orca(l);
}

/// Una línea que empieza (sin distinguir mayúsculas ASCII) con `p` no empieza
/// con `q` si en alguna posición `i` común los dos difieren aun plegados.
proof fn lema_prefijos_distintos(l: Seq<char>, p: Seq<char>, q: Seq<char>, i: int)
    requires
        p.len() <= l.len(),
        forall|j: int| 0 <= j < p.len() ==> plegado(#[trigger] l[j]) == plegado(p[j]),
        0 <= i < p.len(),
        i < q.len(),
        plegado(p[i]) != plegado(q[i]),
    ensures
        istrip_spec(l, q) is None,
{
    assert(plegado(l[i]) == plegado(p[i]));
}

/// Cantidad de capas: una línea que empieza, sin distinguir mayúsculas
/// ASCII, con `;   Layer count:`, `; layer_count =`, `;Layer count:` o
/// `; total layer number:` agrega como candidato el primer número que sigue
/// al prefijo (y ninguno si no hay número válido).
pub proof fn ley_cantidad_de_capas(e: CabeceraV, l: Seq<char>, p: Seq<char>)
    requires
        p == ";   Layer count:"@ || p == "; layer_count ="@ || p == ";Layer count:"@ || p
            == "; total layer number:"@,
        p.len() <= l.len(),
        forall|i: int| 0 <= i < p.len() ==> plegado(#[trigger] l[i]) == plegado(p[i]),
    ensures
        primer_numero(l.skip(p.len() as int)) matches Some(d) ==> procesar_linea(e, l).capas == e.capas.push(d),
        primer_numero(l.skip(p.len() as int)) is None ==> procesar_linea(e, l).capas == e.capas,
{
    reveal_strlit(";   Layer count:");
    reveal_strlit("; layer_count =");
    reveal_strlit(";Layer count:");
    reveal_strlit("; total layer number:");
    let a = ";   Layer count:"@;
    let b = "; layer_count ="@;
    let c = ";Layer count:"@;
    let d = "; total layer number:"@;
    assert(empieza_sin_caso(l, p));
    if p == b {
        lema_prefijos_distintos(l, p, a, 2);
    } else if p == c {
        lema_prefijos_distintos(l, p, a, 1);
        lema_prefijos_distintos(l, p, b, 1);
    } else if p == d {
        lema_prefijos_distintos(l, p, a, 2);
        lema_prefijos_distintos(l, p, b, 2);
        lema_prefijos_distintos(l, p, c, 1);
    }
    assert(istrip4(l, a, b, c, d) == Some(l.skip(p.len() as int)));
}

/// Altura de capa: una línea que empieza, sin distinguir mayúsculas ASCII,
/// con `;   Layer height:`, `; layer_height =` o `;Layer height:` agrega como
/// candidato el primer número que sigue al prefijo.
pub proof fn ley_altura_de_capa(e: CabeceraV, l: Seq<char>, p: Seq<char>)
    requires
        p == ";   Layer height:"@ || p == "; layer_height ="@ || p == ";Layer height:"@,
        p.len() <= l.len(),
        forall|i: int| 0 <= i < p.len() ==> plegado(#[trigger] l[i]) == plegado(p[i]),
    ensures
        primer_numero(l.skip(p.len() as int)) matches Some(d) ==> procesar_linea(e, l).altura_capa
            == e.altura_capa.push(d),
        primer_numero(l.skip(p.len() as int)) is None ==> procesar_linea(e, l).altura_capa == e.altura_capa,
{
    reveal_strlit(";   Layer height:");
    reveal_strlit("; layer_height =");
    reveal_strlit(";Layer height:");
    let a = ";   Layer height:"@;
    let b = "; layer_height ="@;
    let c = ";Layer height:"@;
    assert(empieza_sin_caso(l, p));
    if p == b {
        lema_prefijos_distintos(l, p, a, 2);
    } else if p == c {
        lema_prefijos_distintos(l, p, a, 1);
        lema_prefijos_distintos(l, p, b, 1);
    }
    assert(istrip3(l, a, b, c) == Some(l.skip(p.len() as int)));
}

/// Relleno: una línea que empieza, sin distinguir mayúsculas ASCII, con
/// `;   Infill:`, `; fill_density =` o `;Infill:` agrega como candidato el
/// primer número que sigue al prefijo.
pub proof fn ley_relleno(e: CabeceraV, l: Seq<char>, p: Seq<char>)
    requires
        p == ";   Infill:"@ || p == "; fill_density ="@ || p == ";Infill:"@,
        p.len() <= l.len(),
        forall|i: int| 0 <= i < p.len() ==> plegado(#[trigger] l[i]) == plegado(p[i]),
    ensures
        primer_numero(l.skip(p.len() as int)) matches Some(d) ==> procesar_linea(e, l).relleno_pct
            == e.relleno_pct.push(d),
        primer_numero(l.skip(p.len() as int)) is None ==> procesar_linea(e, l).relleno_pct == e.relleno_pct,
{
    reveal_strlit(";   Infill:");
    reveal_strlit("; fill_density =");
    reveal_strlit(";Infill:");
    let a = ";   Infill:"@;
    let b = "; fill_density ="@;
    let c = ";Infill:"@;
    assert(empieza_sin_caso(l, p));
    if p == b {
        lema_prefijos_distintos(l, p, a, 2);
    } else if p == c {
        lema_prefijos_distintos(l, p, a, 1);
        lema_prefijos_distintos(l, p, b, 1);
    }
    assert(istrip3(l, a, b, c) == Some(l.skip(p.len() as int)));
}

/// Peso del filamento: una línea que empieza, sin distinguir mayúsculas
/// ASCII, con `;   Filament weight:`, `; Filament weight:`,
/// `; filament used [g] =` o `; filament_used_g =` agrega como candidato (en
/// gramos) el primer número que sigue al prefijo.
pub proof fn ley_peso_de_filamento(e: CabeceraV, l: Seq<char>, p: Seq<char>)
    requires
        p == ";   Filament weight:"@ || p == "; Filament weight:"@ || p == "; filament used [g] ="@ || p
            == "; filament_used_g ="@,
        p.len() <= l.len(),
        forall|i: int| 0 <= i < p.len() ==> plegado(#[trigger] l[i]) == plegado(p[i]),
    ensures
        primer_numero(l.skip(p.len() as int)) matches Some(d) ==> procesar_linea(e, l).filamento_g
            == e.filamento_g.push(d),
        primer_numero(l.skip(p.len() as int)) is None ==> procesar_linea(e, l).filamento_g == e.filamento_g,
{
    reveal_strlit(";   Filament weight:");
    reveal_strlit("; Filament weight:");
    reveal_strlit("; filament used [g] =");
    reveal_strlit("; filament_used_g =");
    let a = ";   Filament weight:"@;
    let b = "; Filament weight:"@;
    let c = "; filament used [g] ="@;
    let d = "; filament_used_g ="@;
    assert(empieza_sin_caso(l, p));
    let r = l.skip(p.len() as int);
    if p == a {
        lema_prefijos_distintos(l, p, c, 2);
        lema_prefijos_distintos(l, p, d, 2);
        assert(istrip2(l, a, b) == Some(r));
        assert(istrip2(l, c, d) is None);
    } else if p == b {
        lema_prefijos_distintos(l, p, a, 2);
        lema_prefijos_distintos(l, p, c, 11);
        lema_prefijos_distintos(l, p, d, 10);
        assert(istrip2(l, a, b) == Some(r));
        assert(istrip2(l, c, d) is None);
    } else if p == c {
        lema_prefijos_distintos(l, p, a, 2);
        lema_prefijos_distintos(l, p, b, 11);
        assert(istrip2(l, a, b) is None);
        assert(istrip2(l, c, d) == Some(r));
    } else {
        lema_prefijos_distintos(l, p, a, 2);
        lema_prefijos_distintos(l, p, b, 10);
        lema_prefijos_distintos(l, p, c, 10);
        assert(istrip2(l, a, b) is None);
        assert(istrip2(l, c, d) == Some(r));
    }
}

/// Largo del filamento: una línea que empieza, sin distinguir mayúsculas
/// ASCII, con `;   Filament length:`, `; Filament length:` o
/// `; filament used [mm] =` agrega el primer número que sigue al prefijo como
/// milímetros; con `;Filament used:`, como metros.
pub proof fn ley_largo_de_filamento(e: CabeceraV, l: Seq<char>, p: Seq<char>)
    requires
        p == ";   Filament length:"@ || p == "; Filament length:"@ || p == "; filament used [mm] ="@ || p
            == ";Filament used:"@,
        p.len() <= l.len(),
        forall|i: int| 0 <= i < p.len() ==> plegado(#[trigger] l[i]) == plegado(p[i]),
    ensures
        primer_numero(l.skip(p.len() as int)) matches Some(d) ==> procesar_linea(e, l).filamento_mm
            == e.filamento_mm.push(
            if p == ";Filament used:"@ {
                LongitudV::Metros(d)
            } else {
                LongitudV::Milimetros(d)
            },
        ),
        primer_numero(l.skip(p.len() as int)) is None ==> procesar_linea(e, l).filamento_mm == e.filamento_mm,
{
    reveal_strlit(";   Filament length:");
    reveal_strlit("; Filament length:");
    reveal_strlit("; filament used [mm] =");
    reveal_strlit(";Filament used:");
    let a = ";   Filament length:"@;
    let b = "; Filament length:"@;
    let c = "; filament used [mm] ="@;
    let d = ";Filament used:"@;
    assert(empieza_sin_caso(l, p));
    let r = l.skip(p.len() as int);
    if p == a {
        lema_prefijos_distintos(l, p, c, 2);
        lema_prefijos_distintos(l, p, d, 1);
        assert(istrip2(l, a, b) == Some(r));
    } else if p == b {
        lema_prefijos_distintos(l, p, a, 2);
        lema_prefijos_distintos(l, p, c, 11);
        lema_prefijos_distintos(l, p, d, 1);
        assert(istrip2(l, a, b) == Some(r));
    } else if p == c {
        lema_prefijos_distintos(l, p, a, 2);
        lema_prefijos_distintos(l, p, b, 11);
        lema_prefijos_distintos(l, p, d, 1);
        assert(istrip2(l, a, b) is None);
    } else {
        lema_prefijos_distintos(l, p, a, 1);
        lema_prefijos_distintos(l, p, b, 1);
        lema_prefijos_distintos(l, p, c, 1);
        assert(istrip2(l, a, b) is None);
    }
}

/// Temperaturas por línea: una línea que empieza con `M104 S` o `M109 S`
/// agrega a las del hotend el primer número que sigue a esos seis
/// caracteres, y una que empieza con `M140 S` o `M190 S`, a las de la cama;
/// cada una deja la otra lista como estaba.
pub proof fn ley_temperatura_por_linea(e: CabeceraV, l: Seq<char>)
    ensures
        empieza_con(l, "M104 S"@) || empieza_con(l, "M109 S"@) ==> {
            &&& primer_numero(l.skip(6)) matches Some(d) ==> procesar_linea(e, l).temp_hotend
                == e.temp_hotend.push(d)
            &&& primer_numero(l.skip(6)) is None ==> procesar_linea(e, l).temp_hotend == e.temp_hotend
            &&& procesar_linea(e, l).temp_cama == e.temp_cama
        },
        empieza_con(l, "M140 S"@) || empieza_con(l, "M190 S"@) ==> {
            &&& primer_numero(l.skip(6)) matches Some(d) ==> procesar_linea(e, l).temp_cama == e.temp_cama.push(d)
            &&& primer_numero(l.skip(6)) is None ==> procesar_linea(e, l).temp_cama == e.temp_cama
            &&& procesar_linea(e, l).temp_hotend == e.temp_hotend
        },
{
    reveal_strlit("M104 S");
    reveal_strlit("M109 S");
    reveal_strlit("M140 S");
    reveal_strlit("M190 S");
    if l.len() >= 6 {
        let c = l[2];
        assert(l.subrange(0, 6)[2] == c);
        if empieza_con(l, "M104 S"@) {
            assert(l.subrange(0, 6) == "M104 S"@);
            assert(c == '0');
        }
        if empieza_con(l, "M109 S"@) {
            assert(l.subrange(0, 6) == "M109 S"@);
            assert(c == '0');
        }
        if empieza_con(l, "M140 S"@) {
            assert(l.subrange(0, 6) == "M140 S"@);
            assert(c == '4');
        }
        if empieza_con(l, "M190 S"@) {
            assert(l.subrange(0, 6) == "M190 S"@);
            assert(c == '9');
        }
    }
}

/// Tiempo por línea: una línea que menciona `Estimated printing time` (o en
/// minúsculas) o `Print time:` agrega su lectura de tiempo, una vez por cada
/// una de las dos formas que menciona; cualquier otra no agrega nada.
pub proof fn ley_tiempo_por_linea(e: CabeceraV, l: Seq<char>)
    ensures
        ({
            let est = contiene(l, "Estimated printing time"@) || contiene(l, "estimated printing time"@);
            let pt = contiene(l, "Print time:"@);
            let t = procesar_linea(e, l).tiempo;
            &&& est && !pt ==> t == e.tiempo.push(tiempo_spec(l))
            &&& !est && pt ==> t == e.tiempo.push(tiempo_spec(l))
            &&& est && pt ==> t == e.tiempo.push(tiempo_spec(l)).push(tiempo_spec(l))
            &&& !est && !pt ==> t == e.tiempo
        }),
{
    let est = contiene(l, "Estimated printing time"@) || contiene(l, "estimated printing time"@);
    let pt = contiene(l, "Print time:"@);
    assert(e.tiempo + tiempo_si(est, l) + tiempo_si(pt, l) =~= if est && pt {
        e.tiempo.push(tiempo_spec(l)).push(tiempo_spec(l))
    } else if est || pt {
        e.tiempo.push(tiempo_spec(l))
    } else {
        e.tiempo
    });
}

} // verus!
