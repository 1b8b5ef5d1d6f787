//! Explorador de archivos: listado ordenado de un directorio, filtro por
//! nombre, selección y navegación entre directorios.
//!
//! El directorio se representa por sus componentes debajo de la raíz. Leer un
//! directorio es trabajo de quien usa el explorador: cuando una operación
//! cambia de directorio, lo indica y espera el nuevo listado en `cargar`.

use crate::texto::{
    a_minusculas, chars_de, contiene, contiene_exec, empujar, igual_a, minusculas_de,
    quitar_ultimo, ultima_antes,
};
use vstd::prelude::*;
use vstd::string::*;

verus! {

// ── Entradas ─────────────────────────────────────────────────────────────────

/// Una entrada del listado.
pub struct EntradaDir {
    pub nombre: String,
    pub es_dir: bool,
    pub tamano_kb: u64,
    /// Extensión en minúsculas (vacía si no tiene).
    pub ext: String,
}

pub struct EntradaV {
    pub nombre: Seq<char>,
    pub es_dir: bool,
    pub tamano_kb: u64,
    pub ext: Seq<char>,
}

impl View for EntradaDir {
    type V = EntradaV;

    open spec fn view(&self) -> EntradaV {
        EntradaV { nombre: self.nombre@, es_dir: self.es_dir, tamano_kb: self.tamano_kb, ext: self.ext@ }
    }
}

/// Una entrada tal como la entrega la lectura del directorio.
pub struct EntradaCruda {
    pub nombre: String,
    pub es_dir: bool,
    pub tamano_kb: u64,
}

/// Extensiones que el programa sabe abrir.
pub open spec fn es_relevante(ext: Seq<char>) -> bool {
    ext == "stl"@ || ext == "gcode"@ || ext == "gco"@ || ext == "g"@
}

impl EntradaDir {
    /// La entrada es un modelo STL o un G-code.
    pub fn relevante(&self) -> (r: bool)
        ensures
            r == es_relevante(self.ext@),
    {
        let e = chars_de(self.ext.as_str());
        igual_a(&e, "stl") || igual_a(&e, "gcode") || igual_a(&e, "gco") || igual_a(&e, "g")
    }
}

/// Extensión de un nombre de archivo (como `Path::extension`): lo que sigue
/// al último punto, salvo que ese punto sea el primer carácter; vacía si no
/// hay punto.
pub open spec fn extension(n: Seq<char>) -> Seq<char> {
    match ultima_antes(n, '.', n.len() as int) {
        Some(p) => if p == 0 {
            Seq::empty()
        } else {
            n.skip(p + 1)
        },
        None => Seq::empty(),
    }
}

/// Entrada oculta: su nombre empieza con punto.
pub open spec fn oculta(n: Seq<char>) -> bool {
    n.len() > 0 && n[0] == '.'
}

pub open spec fn entrada_de(n: Seq<char>, es_dir: bool, tamano_kb: u64) -> EntradaV {
    EntradaV { nombre: n, es_dir, tamano_kb, ext: minusculas_de(extension(n)) }
}

/// Entradas no ocultas de `cs` que son directorios (`dirs`) o archivos, en el
/// orden de `cs`.
pub open spec fn visibles(cs: Seq<EntradaCruda>, dirs: bool) -> Seq<EntradaV>
    decreases cs.len(),
{
    if cs.len() == 0 {
        Seq::empty()
    } else {
        let p = visibles(cs.drop_last(), dirs);
        let c = cs.last();
        if !oculta(c.nombre@) && c.es_dir == dirs {
            p.push(entrada_de(c.nombre@, c.es_dir, c.tamano_kb))
        } else {
            p
        }
    }
}

/// Orden de nombres: lexicográfico por código de carácter.
pub open spec fn nombre_le(a: Seq<char>, b: Seq<char>) -> bool
    decreases a.len(),
{
    if a.len() == 0 {
        true
    } else if b.len() == 0 {
        false
    } else if (a[0] as u32) < (b[0] as u32) {
        true
    } else if (a[0] as u32) > (b[0] as u32) {
        false
    } else {
        nombre_le(a.drop_first(), b.drop_first())
    }
}

/// Posición donde se inserta `x` en `s`, mirando las primeras `j`: detrás del
/// último elemento de nombre menor o igual.
pub open spec fn posicion_insercion(s: Seq<EntradaV>, x: EntradaV, j: int) -> int
    decreases j,
{
    if j <= 0 || j > s.len() {
        0
    } else if nombre_le(s[j - 1].nombre, x.nombre) {
        j
    } else {
        posicion_insercion(s, x, j - 1)
    }
}

pub open spec fn insertar(s: Seq<EntradaV>, x: EntradaV) -> Seq<EntradaV> {
    let p = posicion_insercion(s, x, s.len() as int);
    s.take(p) + seq![x] + s.skip(p)
}

/// Orden estable por nombre (inserción de cada elemento, en orden).
pub open spec fn ordenar(s: Seq<EntradaV>) -> Seq<EntradaV>
    decreases s.len(),
{
    if s.len() == 0 {
        Seq::empty()
    } else {
        insertar(ordenar(s.drop_last()), s.last())
    }
}

pub open spec fn punto_punto() -> EntradaV {
    EntradaV { nombre: ".."@, es_dir: true, tamano_kb: 0, ext: Seq::empty() }
}

/// Listado de un directorio: `..` si hay directorio padre, después los
/// directorios y después los archivos, cada grupo ordenado por nombre y sin
/// entradas ocultas.
pub open spec fn listado(tiene_padre: bool, cs: Seq<EntradaCruda>) -> Seq<EntradaV> {
    (if tiene_padre {
        seq![punto_punto()]
    } else {
        Seq::empty()
    }) + ordenar(visibles(cs, true)) + ordenar(visibles(cs, false))
}

// ── Estado del explorador ────────────────────────────────────────────────────

pub struct NavArchivos {
    /// Componentes del directorio actual, debajo de la raíz.
    pub directorio: Vec<String>,
    pub entradas: Vec<EntradaDir>,
    pub seleccion: usize,
    pub scroll: usize,
    pub filtro: String,
    pub error: Option<String>,
}

pub struct NavV {
    pub directorio: Seq<Seq<char>>,
    pub entradas: Seq<EntradaV>,
    pub seleccion: usize,
    pub scroll: usize,
    pub filtro: Seq<char>,
    pub error: Option<Seq<char>>,
}

pub open spec fn vista_entradas(v: Seq<EntradaDir>) -> Seq<EntradaV> {
    v.map_values(|e: EntradaDir| e@)
}

pub open spec fn vista_dir(v: Seq<String>) -> Seq<Seq<char>> {
    v.map_values(|s: String| s@)
}

impl View for NavArchivos {
    type V = NavV;

    open spec fn view(&self) -> NavV {
        NavV {
            directorio: vista_dir(self.directorio@),
            entradas: vista_entradas(self.entradas@),
            seleccion: self.seleccion,
            scroll: self.scroll,
            filtro: self.filtro@,
            error: match &self.error {
                Some(e) => Some(e@),
                None => None,
            },
        }
    }
}

/// Qué tiene que hacer quien usa el explorador después de una operación.
pub enum Accion {
    /// Nada.
    Nada,
    /// Cambió el directorio: hay que leerlo y llamar a `cargar`.
    Recargar,
    /// Se eligió un archivo: la ruta, como componentes debajo de la raíz.
    Abrir(Vec<String>),
}

pub enum AccionV {
    Nada,
    Recargar,
    Abrir(Seq<Seq<char>>),
}

impl View for Accion {
    type V = AccionV;

    open spec fn view(&self) -> AccionV {
        match self {
            Accion::Nada => AccionV::Nada,
            Accion::Recargar => AccionV::Recargar,
            Accion::Abrir(v) => AccionV::Abrir(vista_dir(v@)),
        }
    }
}

/// La entrada coincide con el filtro `f`: el filtro está vacío o su nombre en
/// minúsculas contiene al filtro en minúsculas.
pub open spec fn coincide(e: EntradaV, f: Seq<char>) -> bool {
    f.len() == 0 || contiene(minusculas_de(e.nombre), minusculas_de(f))
}

/// Índices, en orden, de las primeras `n` entradas que coinciden con `f`.
pub open spec fn filtradas_hasta(es: Seq<EntradaV>, f: Seq<char>, n: int) -> Seq<usize>
    decreases n,
{
    if n <= 0 || n > es.len() {
        Seq::empty()
    } else {
        let p = filtradas_hasta(es, f, n - 1);
        if coincide(es[n - 1], f) {
            p.push((n - 1) as usize)
        } else {
            p
        }
    }
}

/// Índices de las entradas cuyo nombre en minúsculas contiene el filtro en
/// minúsculas.
pub open spec fn filtradas_spec(n: NavV) -> Seq<usize> {
    filtradas_hasta(n.entradas, n.filtro, n.entradas.len() as int)
}

/// Primera posición de `x` en `ids` (o 0 si no está).
pub open spec fn posicion_en(ids: Seq<usize>, x: usize, k: int) -> int
    decreases ids.len() - k,
{
    if k < 0 || k >= ids.len() {
        0
    } else if ids[k] == x {
        k
    } else {
        posicion_en(ids, x, k + 1)
    }
}

pub open spec fn acotar(v: int, lo: int, hi: int) -> int {
    if v < lo {
        lo
    } else if v > hi {
        hi
    } else {
        v
    }
}

/// Selección después de moverse `delta` lugares dentro de las filtradas.
pub open spec fn mover_spec(n: NavV, delta: i32) -> usize {
    let ids = filtradas_spec(n);
    if ids.len() == 0 {
        n.seleccion
    } else {
        ids[acotar(posicion_en(ids, n.seleccion, 0) + delta, 0, ids.len() - 1)]
    }
}

/// Estado tras un cambio de directorio: el nuevo directorio y filtro vacío
/// (las entradas llegan después, con `cargar`).
pub open spec fn con_directorio(n: NavV, d: Seq<Seq<char>>) -> NavV {
    NavV { directorio: d, filtro: Seq::empty(), ..n }
}

/// Resultado de confirmar la selección: si la selección no está entre las
/// filtradas se usa la primera filtrada (si no hay ninguna, no pasa nada). Un
/// directorio se abre (`..` sube, si se puede); un archivo se devuelve.
pub open spec fn confirmar_spec(n: NavV) -> (NavV, AccionV) {
    let ids = filtradas_spec(n);
    if ids.len() == 0 && !ids.contains(n.seleccion) {
        (n, AccionV::Nada)
    } else {
        let idx = if ids.contains(n.seleccion) { n.seleccion } else { ids[0] };
        let e = n.entradas[idx as int];
        if e.es_dir {
            if e.nombre == ".."@ {
                if n.directorio.len() == 0 {
                    (n, AccionV::Nada)
                } else {
                    (con_directorio(n, n.directorio.drop_last()), AccionV::Recargar)
                }
            } else {
                (con_directorio(n, n.directorio.push(e.nombre)), AccionV::Recargar)
            }
        } else {
            (n, AccionV::Abrir(n.directorio.push(e.nombre)))
        }
    }
}

// ── Leyes ────────────────────────────────────────────────────────────────────

proof fn lema_le_total(a: Seq<char>, b: Seq<char>)
    ensures
        nombre_le(a, b) || nombre_le(b, a),
    decreases a.len(),
{
    if a.len() > 0 && b.len() > 0 && (a[0] as u32) == (b[0] as u32) {
        lema_le_total(a.drop_first(), b.drop_first());
    }
}

proof fn lema_le_transitivo(a: Seq<char>, b: Seq<char>, c: Seq<char>)
    requires
        nombre_le(a, b),
        nombre_le(b, c),
    ensures
        nombre_le(a, c),
    decreases a.len(),
{
    if a.len() > 0 && b.len() > 0 && c.len() > 0 && (a[0] as u32) == (b[0] as u32) && (b[0] as u32) == (c[0] as u32) {
        lema_le_transitivo(a.drop_first(), b.drop_first(), c.drop_first());
    }
}

/// Los nombres de `s` están en orden no decreciente.
pub open spec fn ordenada(s: Seq<EntradaV>) -> bool {
    forall|i: int, j: int| 0 <= i < j < s.len() ==> nombre_le(#[trigger] s[i].nombre, #[trigger] s[j].nombre)
}

proof fn lema_posicion(s: Seq<EntradaV>, x: EntradaV, j: int)
    requires
        0 <= j <= s.len(),
    ensures
        0 <= posicion_insercion(s, x, j) <= j,
        forall|i: int| posicion_insercion(s, x, j) <= i < j ==> !nombre_le(#[trigger] s[i].nombre, x.nombre),
        posicion_insercion(s, x, j) > 0 ==> nombre_le(s[posicion_insercion(s, x, j) - 1].nombre, x.nombre),
    decreases j,
{
    if j > 0 && !nombre_le(s[j - 1].nombre, x.nombre) {
        lema_posicion(s, x, j - 1);
    }
}

proof fn lema_insertar(s: Seq<EntradaV>, x: EntradaV)
    requires
        ordenada(s),
    ensures
        ordenada(insertar(s, x)),
        insertar(s, x).to_multiset() == s.to_multiset().insert(x),
{
    let p = posicion_insercion(s, x, s.len() as int);
    lema_posicion(s, x, s.len() as int);
    let r = insertar(s, x);
    assert(r =~= s.insert(p, x));
    vstd::seq_lib::to_multiset_insert(s, p, x);
    assert forall|i: int, j: int| 0 <= i < j < r.len() implies nombre_le(#[trigger] r[i].nombre, #[trigger] r[j].nombre) by {
        if j < p {
            assert(r[i] == s[i] && r[j] == s[j]);
        } else if j == p {
            assert(r[j] == x && r[i] == s[i]);
            if i < p - 1 {
                lema_le_transitivo(s[i].nombre, s[p - 1].nombre, x.nombre);
            }
        } else if i == p {
            assert(r[i] == x && r[j] == s[j - 1]);
            lema_le_total(s[j - 1].nombre, x.nombre);
        } else if i < p {
            assert(r[i] == s[i] && r[j] == s[j - 1]);
            if p <= j - 1 {
                assert(nombre_le(s[i].nombre, s[j - 1].nombre));
            }
        } else {
            assert(r[i] == s[i - 1] && r[j] == s[j - 1]);
        }
    }
}

proof fn lema_ordenar(s: Seq<EntradaV>)
    ensures
        ordenada(ordenar(s)),
        ordenar(s).to_multiset() == s.to_multiset(),
    decreases s.len(),
{
    if s.len() > 0 {
        lema_ordenar(s.drop_last());
        lema_insertar(ordenar(s.drop_last()), s.last());
        assert(s =~= s.drop_last().push(s.last()));
        vstd::seq_lib::to_multiset_build(s.drop_last(), s.last());
        assert(s.to_multiset() == s.drop_last().to_multiset().insert(s.last()));
        assert(ordenar(s) == insertar(ordenar(s.drop_last()), s.last()));
    } else {
        assert(s =~= ordenar(s));
    }
}

proof fn lema_visibles(cs: Seq<EntradaCruda>, dirs: bool)
    ensures
        forall|k: int| 0 <= k < visibles(cs, dirs).len() ==> (#[trigger] visibles(cs, dirs)[k]).es_dir == dirs
            && !oculta(visibles(cs, dirs)[k].nombre),
    decreases cs.len(),
{
    if cs.len() > 0 {
        lema_visibles(cs.drop_last(), dirs);
        let p = visibles(cs.drop_last(), dirs);
        assert forall|k: int| 0 <= k < visibles(cs, dirs).len() implies (#[trigger] visibles(cs, dirs)[k]).es_dir == dirs
            && !oculta(visibles(cs, dirs)[k].nombre) by {
            if k < p.len() {
                assert(visibles(cs, dirs)[k] == p[k]);
            }
        }
    }
}

/// El listado de un directorio: empieza con `..` si hay padre; después vienen
/// todos los directorios y después todos los archivos (ninguno oculto), cada
/// grupo ordenado por nombre; y contiene exactamente las entradas visibles de
/// cada clase.
pub proof fn ley_listado(tiene_padre: bool, cs: Seq<EntradaCruda>)
    ensures
        ({
            let l = listado(tiene_padre, cs);
            let a = if tiene_padre { 1int } else { 0int };
            let nd = visibles(cs, true).len() as int;
            &&& l.len() == a + nd + visibles(cs, false).len()
            &&& tiene_padre ==> l[0] == punto_punto()
            &&& forall|k: int| a <= k < a + nd ==> (#[trigger] l[k]).es_dir && !oculta(l[k].nombre)
            &&& forall|k: int| a + nd <= k < l.len() ==> !(#[trigger] l[k]).es_dir && !oculta(l[k].nombre)
            &&& ordenada(l.subrange(a, a + nd))
            &&& ordenada(l.subrange(a + nd, l.len() as int))
            &&& l.subrange(a, a + nd).to_multiset() == visibles(cs, true).to_multiset()
            &&& l.subrange(a + nd, l.len() as int).to_multiset() == visibles(cs, false).to_multiset()
        }),
{
    let l = listado(tiene_padre, cs);
    let a = if tiene_padre { 1int } else { 0int };
    let d = ordenar(visibles(cs, true));
    let f = ordenar(visibles(cs, false));
    lema_ordenar(visibles(cs, true));
    lema_ordenar(visibles(cs, false));
    lema_visibles(cs, true);
    lema_visibles(cs, false);
    vstd::seq_lib::to_multiset_len(d);
    vstd::seq_lib::to_multiset_len(visibles(cs, true));
    vstd::seq_lib::to_multiset_len(f);
    vstd::seq_lib::to_multiset_len(visibles(cs, false));
    let nd = visibles(cs, true).len() as int;
    assert(l.subrange(a, a + nd) =~= d);
    assert(l.subrange(a + nd, l.len() as int) =~= f);
    assert forall|k: int| a <= k < a + nd implies (#[trigger] l[k]).es_dir && !oculta(l[k].nombre) by {
        let x = d[k - a];
        assert(l[k] == x);
        assert(d.contains(x));
        vstd::seq_lib::to_multiset_contains(d, x);
        vstd::seq_lib::to_multiset_contains(visibles(cs, true), x);
        let j = choose|j: int| 0 <= j < visibles(cs, true).len() && visibles(cs, true)[j] == x;
        assert(visibles(cs, true)[j].es_dir);
    }
    assert forall|k: int| a + nd <= k < l.len() implies !(#[trigger] l[k]).es_dir && !oculta(l[k].nombre) by {
        let x = f[k - a - nd];
        assert(l[k] == x);
        assert(f.contains(x));
        vstd::seq_lib::to_multiset_contains(f, x);
        vstd::seq_lib::to_multiset_contains(visibles(cs, false), x);
        let j = choose|j: int| 0 <= j < visibles(cs, false).len() && visibles(cs, false)[j] == x;
        assert(!visibles(cs, false)[j].es_dir);
    }
}

/// Orden lexicográfico por código de carácter, dicho directamente: `a` es
/// prefijo de `b`, o en la primera posición `k` en que difieren el carácter de
/// `a` es menor que el de `b`.
pub open spec fn lexicografico_le(a: Seq<char>, b: Seq<char>) -> bool {
    ||| a.len() <= b.len() && b.subrange(0, a.len() as int) == a
    ||| exists|k: int|
        0 <= k < a.len() && k < b.len() && a.subrange(0, k) == b.subrange(0, k) && (a[k] as u32) < (
        #[trigger] b[k] as u32)
}

/// El orden de nombres del listado es el lexicográfico.
pub proof fn lema_nombre_le_lexicografico(a: Seq<char>, b: Seq<char>)
    ensures
        nombre_le(a, b) <==> lexicografico_le(a, b),
    decreases a.len(),
{
    if a.len() == 0 {
        assert(b.subrange(0, 0) =~= a);
    } else if b.len() == 0 {
    } else if (a[0] as u32) < (b[0] as u32) {
        assert(a.subrange(0, 0) =~= b.subrange(0, 0));
        assert(0 < a.len() && 0 < b.len() && a.subrange(0, 0) == b.subrange(0, 0) && (a[0] as u32) < (b[0] as u32));
    } else if (a[0] as u32) > (b[0] as u32) {
        if a.len() <= b.len() && b.subrange(0, a.len() as int) == a {
            assert(b.subrange(0, a.len() as int)[0] == b[0]);
        }
        assert forall|k: int|
            0 <= k < a.len() && k < b.len() && a.subrange(0, k) == b.subrange(0, k) implies !((a[k] as u32) < (
            #[trigger] b[k] as u32)) by {
            if k > 0 {
                assert(a.subrange(0, k)[0] == a[0]);
                assert(b.subrange(0, k)[0] == b[0]);
            }
        }
    } else {
        let a1 = a.drop_first();
        let b1 = b.drop_first();
        lema_nombre_le_lexicografico(a1, b1);
        vstd::utf8::char_u32_cast(a[0], a[0] as u32);
        vstd::utf8::char_u32_cast(b[0], b[0] as u32);
        assert(a[0] == b[0]);
        // Prefijo.
        if a.len() <= b.len() && b.subrange(0, a.len() as int) == a {
            assert(b1.subrange(0, a1.len() as int) =~= a1) by {
                assert forall|i: int| 0 <= i < a1.len() implies #[trigger] b1.subrange(0, a1.len() as int)[i] == a1[i] by {
                    assert(b.subrange(0, a.len() as int)[i + 1] == a[i + 1]);
                }
            }
        }
        if a1.len() <= b1.len() && b1.subrange(0, a1.len() as int) == a1 {
            assert(b.subrange(0, a.len() as int) =~= a) by {
                assert forall|i: int| 0 <= i < a.len() implies #[trigger] b.subrange(0, a.len() as int)[i] == a[i] by {
                    if i > 0 {
                        assert(b1.subrange(0, a1.len() as int)[i - 1] == a1[i - 1]);
                    }
                }
            }
        }
        // Primera diferencia.
        if exists|k: int|
            0 <= k < a.len() && k < b.len() && a.subrange(0, k) == b.subrange(0, k) && (a[k] as u32) < (
            #[trigger] b[k] as u32) {
            let k = choose|k: int|
                0 <= k < a.len() && k < b.len() && a.subrange(0, k) == b.subrange(0, k) && (a[k] as u32) < (
                #[trigger] b[k] as u32);
            assert(k > 0);
            assert(a1.subrange(0, k - 1) =~= b1.subrange(0, k - 1)) by {
                assert forall|i: int| 0 <= i < k - 1 implies #[trigger] a1.subrange(0, k - 1)[i] == b1.subrange(0, k - 1)[i] by {
                    assert(a.subrange(0, k)[i + 1] == b.subrange(0, k)[i + 1]);
                }
            }
            assert(a1[k - 1] == a[k] && b1[k - 1] == b[k]);
            assert(0 <= k - 1 < a1.len() && k - 1 < b1.len() && a1.subrange(0, k - 1) == b1.subrange(0, k - 1)
                && (a1[k - 1] as u32) < (b1[k - 1] as u32));
        }
        if exists|k: int|
            0 <= k < a1.len() && k < b1.len() && a1.subrange(0, k) == b1.subrange(0, k) && (a1[k] as u32) < (
            #[trigger] b1[k] as u32) {
            let k = choose|k: int|
                0 <= k < a1.len() && k < b1.len() && a1.subrange(0, k) == b1.subrange(0, k) && (a1[k] as u32) < (
                #[trigger] b1[k] as u32);
            assert(a.subrange(0, k + 1) =~= b.subrange(0, k + 1)) by {
                assert forall|i: int| 0 <= i < k + 1 implies #[trigger] a.subrange(0, k + 1)[i] == b.subrange(0, k + 1)[i] by {
                    if i > 0 {
                        assert(a1.subrange(0, k)[i - 1] == b1.subrange(0, k)[i - 1]);
                    }
                }
            }
            assert(a[k + 1] == a1[k] && b[k + 1] == b1[k]);
            assert(0 <= k + 1 < a.len() && k + 1 < b.len() && a.subrange(0, k + 1) == b.subrange(0, k + 1)
                && (a[k + 1] as u32) < (b[k + 1] as u32));
        }
    }
}

/// En el listado, dentro de cada grupo (directorios, archivos) los nombres
/// van en orden lexicográfico: si una entrada va antes que otra de su misma
/// clase (sin contar `..`), su nombre es prefijo del de la otra o es menor en
/// el primer carácter en que difieren.
pub proof fn ley_listado_lexicografico(tiene_padre: bool, cs: Seq<EntradaCruda>)
    ensures
        ({
            let l = listado(tiene_padre, cs);
            let a = if tiene_padre { 1int } else { 0int };
            forall|i: int, j: int|
                a <= i < j < l.len() && l[i].es_dir == l[j].es_dir ==> lexicografico_le(
                    #[trigger] l[i].nombre,
                    #[trigger] l[j].nombre,
                )
        }),
{
    ley_listado(tiene_padre, cs);
    let l = listado(tiene_padre, cs);
    let a = if tiene_padre { 1int } else { 0int };
    let nd = visibles(cs, true).len() as int;
    assert forall|i: int, j: int|
        a <= i < j < l.len() && l[i].es_dir == l[j].es_dir implies lexicografico_le(
        #[trigger] l[i].nombre,
        #[trigger] l[j].nombre,
    ) by {
        if j < a + nd {
            let g = l.subrange(a, a + nd);
            assert(g[i - a] == l[i] && g[j - a] == l[j]);
            assert(nombre_le(g[i - a].nombre, g[j - a].nombre));
        } else if i >= a + nd {
            let g = l.subrange(a + nd, l.len() as int);
            assert(g[i - a - nd] == l[i] && g[j - a - nd] == l[j]);
            assert(nombre_le(g[i - a - nd].nombre, g[j - a - nd].nombre));
        } else {
            assert(l[i].es_dir);
            assert(!l[j].es_dir);
        }
        lema_nombre_le_lexicografico(l[i].nombre, l[j].nombre);
    }
}

/// Un índice está entre los filtrados exactamente cuando su entrada coincide
/// con el filtro; los índices salen en orden creciente.
pub proof fn ley_filtro(es: Seq<EntradaV>, f: Seq<char>, n: int)
    requires
        0 <= n <= es.len(),
        es.len() <= usize::MAX,
    ensures
        forall|i: int| 0 <= i < n ==> (filtradas_hasta(es, f, n).contains(i as usize) <==> coincide(#[trigger] es[i], f)),
        forall|a: int, b: int| 0 <= a < b < filtradas_hasta(es, f, n).len() ==> #[trigger] filtradas_hasta(es, f, n)[a] < #[trigger] filtradas_hasta(es, f, n)[b],
    decreases n,
{
    if n > 0 {
        ley_filtro(es, f, n - 1);
        lema_filtradas(es, f, n - 1);
        let p = filtradas_hasta(es, f, n - 1);
        let q = filtradas_hasta(es, f, n);
        assert(q == if coincide(es[n - 1], f) { p.push((n - 1) as usize) } else { p });
        assert forall|i: int| 0 <= i < n implies (q.contains(i as usize) <==> coincide(#[trigger] es[i], f)) by {
            if i < n - 1 {
                assert(p.contains(i as usize) <==> coincide(es[i], f));
                if p.contains(i as usize) {
                    let k = choose|k: int| 0 <= k < p.len() && p[k] == i as usize;
                    assert(q[k] == p[k]);
                }
                if q.contains(i as usize) {
                    let k = choose|k: int| 0 <= k < q.len() && q[k] == i as usize;
                    if k < p.len() {
                        assert(q[k] == p[k]);
                    }
                }
            } else {
                if coincide(es[n - 1], f) {
                    assert(q[q.len() - 1] == (n - 1) as usize);
                } else {
                    if q.contains(i as usize) {
                        let k = choose|k: int| 0 <= k < q.len() && q[k] == i as usize;
                        assert(q[k] == p[k]);
                    }
                }
            }
        }
        assert forall|a: int, b: int| 0 <= a < b < q.len() implies #[trigger] q[a] < #[trigger] q[b] by {
            if b < p.len() {
                assert(q[a] == p[a] && q[b] == p[b]);
            } else {
                assert(q[a] == p[a]);
            }
        }
    }
}

proof fn lema_filtro_vacio(es: Seq<EntradaV>, f: Seq<char>, n: int)
    requires
        0 <= n <= es.len(),
        f.len() == 0,
    ensures
        filtradas_hasta(es, f, n) =~= Seq::new(n as nat, |k: int| k as usize),
    decreases n,
{
    if n > 0 {
        lema_filtro_vacio(es, f, n - 1);
    }
}

/// Con el filtro vacío, las filtradas son todas las entradas, en orden.
pub proof fn ley_filtro_vacio(n: NavV)
    requires
        n.filtro.len() == 0,
    ensures
        filtradas_spec(n) == Seq::new(n.entradas.len(), |k: int| k as usize),
{
    lema_filtro_vacio(n.entradas, n.filtro, n.entradas.len() as int);
}

/// Moverse nunca deja la selección fuera de las entradas filtradas (si hay
/// alguna).
pub proof fn ley_mover_queda_en_filtradas(n: NavV, delta: i32)
    ensures
        filtradas_spec(n).len() > 0 ==> filtradas_spec(n).contains(mover_spec(n, delta)),
{
    let ids = filtradas_spec(n);
    if ids.len() > 0 {
        let k = acotar(posicion_en(ids, n.seleccion, 0) + delta, 0, ids.len() - 1);
        assert(ids[k] == mover_spec(n, delta));
    }
}

/// Primera posición (entre las filtradas) que se muestra en una lista de
/// `visible` renglones: la de siempre si la selección se ve; si quedó arriba,
/// la selección; si quedó abajo, la que deja la selección en el último
/// renglón.
pub open spec fn primera_visible_spec(n: NavV, visible: int) -> int {
    let p = posicion_en(filtradas_spec(n), n.seleccion, 0);
    if p < n.scroll {
        p
    } else if p - n.scroll >= visible {
        p + 1 - visible
    } else {
        n.scroll as int
    }
}

/// Con al menos un renglón, la selección queda dentro de la ventana que
/// empieza en la primera posición visible.
pub proof fn ley_seleccion_visible(n: NavV, visible: int)
    requires
        visible > 0,
    ensures
        primera_visible_spec(n, visible) <= posicion_en(filtradas_spec(n), n.seleccion, 0)
            < primera_visible_spec(n, visible) + visible,
{
}

/// Entrar en un directorio y después subir vuelve al directorio de partida;
/// `..` sube un nivel.
pub proof fn ley_entrar_y_subir(n: NavV)
    ensures
        ({
            let (n2, a) = confirmar_spec(n);
            a is Recargar ==> (n2.directorio.len() > 0 && n2.directorio.drop_last() == n.directorio)
                || (n.directorio.len() > 0 && n2.directorio == n.directorio.drop_last())
        }),
{
    let (n2, a) = confirmar_spec(n);
    if a is Recargar {
        let ids = filtradas_spec(n);
        let idx = if ids.contains(n.seleccion) { n.seleccion } else { ids[0] };
        let e = n.entradas[idx as int];
        if e.nombre != ".."@ {
            assert(n2.directorio.drop_last() =~= n.directorio);
        }
    }
}

/// Escribir una letra en el filtro y borrarla deja el filtro como estaba.
pub proof fn ley_tipear_y_borrar(f: Seq<char>, c: char)
    ensures
        f.push(c).len() > 0,
        f.push(c).drop_last() == f,
{
    assert(f.push(c).drop_last() =~= f);
}

/// Clase de un archivo según su extensión: lo que el programa sabe abrir.
pub enum ClaseArchivo {
    Stl,
    Gcode,
    /// Extensión (en minúsculas) que no se sabe abrir.
    Otro(String),
}

pub enum ClaseV {
    Stl,
    Gcode,
    Otro(Seq<char>),
}

impl View for ClaseArchivo {
    type V = ClaseV;

    open spec fn view(&self) -> ClaseV {
        match self {
            ClaseArchivo::Stl => ClaseV::Stl,
            ClaseArchivo::Gcode => ClaseV::Gcode,
            ClaseArchivo::Otro(e) => ClaseV::Otro(e@),
        }
    }
}

/// Clase del archivo de nombre `nombre` según su extensión en minúsculas.
pub open spec fn clase_spec(nombre: Seq<char>) -> ClaseV {
    let e = minusculas_de(extension(nombre));
    if e == "stl"@ {
        ClaseV::Stl
    } else if e == "gcode"@ || e == "gco"@ || e == "g"@ {
        ClaseV::Gcode
    } else {
        ClaseV::Otro(e)
    }
}

// ── Código ───────────────────────────────────────────────────────────────────

fn nombre_le_exec(a: &Vec<char>, b: &Vec<char>) -> (r: bool)
    ensures
        r == nombre_le(a@, b@),
{
    let mut i: usize = 0;
    assert(a@.skip(0) =~= a@ && b@.skip(0) =~= b@);
    while i < a.len()
        invariant
            i <= a.len(),
            i <= b.len(),
            nombre_le(a@, b@) == nombre_le(a@.skip(i as int), b@.skip(i as int)),
        decreases a.len() - i,
    {
        if i >= b.len() {
            return false;
        }
        let x = a[i] as u32;
        let y = b[i] as u32;
        assert(a@.skip(i as int).drop_first() =~= a@.skip(i + 1));
        assert(b@.skip(i as int).drop_first() =~= b@.skip(i + 1));
        if x < y {
            return true;
        }
        if x > y {
            return false;
        }
        i = i + 1;
    }
    true
}

fn clonar_texto(s: &String) -> (r: String)
    ensures
        r@ == s@,
{
    s.clone()
}

fn extension_exec(n: &Vec<char>) -> (r: Vec<char>)
    ensures
        r@ == extension(n@),
{
    let mut j: usize = n.len();
    while j > 0
        invariant
            j <= n.len(),
            ultima_antes(n@, '.', n@.len() as int) == ultima_antes(n@, '.', j as int),
        decreases j,
    {
        if n[j - 1] == '.' {
            let p = j - 1;
            if p == 0 {
                return Vec::new();
            }
            return crate::texto::desde(n, p + 1);
        }
        j = j - 1;
    }
    Vec::new()
}

fn texto_de(v: &Vec<char>) -> (r: String)
    ensures
        r@ == v@,
{
    let mut s = String::new();
    let mut i: usize = 0;
    while i < v.len()
        invariant
            i <= v.len(),
            s@ =~= v@.take(i as int),
        decreases v.len() - i,
    {
        empujar(&mut s, v[i]);
        i = i + 1;
    }
    s
}

fn entrada_exec(c: &EntradaCruda) -> (r: EntradaDir)
    ensures
        r@ == entrada_de(c.nombre@, c.es_dir, c.tamano_kb),
{
    let n = chars_de(c.nombre.as_str());
    let e = extension_exec(&n);
    let m = a_minusculas(&e);
    EntradaDir { nombre: clonar_texto(&c.nombre), es_dir: c.es_dir, tamano_kb: c.tamano_kb, ext: texto_de(&m) }
}

fn insertar_exec(v: &mut Vec<EntradaDir>, x: EntradaDir)
    ensures
        vista_entradas(final(v)@) == insertar(vista_entradas(old(v)@), x@),
{
    let ghost s = vista_entradas(v@);
    let xn = chars_de(x.nombre.as_str());
    let mut j: usize = v.len();
    while j > 0
        invariant
            j <= v.len(),
            s == vista_entradas(v@),
            xn@ == x.nombre@,
            posicion_insercion(s, x@, s.len() as int) == posicion_insercion(s, x@, j as int),
        ensures
            j <= v.len(),
            posicion_insercion(s, x@, s.len() as int) == j,
        decreases j,
    {
        let yn = chars_de(v[j - 1].nombre.as_str());
        assert(yn@ == s[j - 1].nombre);
        if nombre_le_exec(&yn, &xn) {
            break;
        }
        j = j - 1;
    }
    let ghost p = posicion_insercion(s, x@, s.len() as int);
    assert(p == j);
    let ghost xv = x@;
    v.insert(j, x);
    assert(vista_entradas(v@) =~= s.take(p) + seq![xv] + s.skip(p));
}

fn agregar_visibles(cs: &Vec<EntradaCruda>, dirs: bool) -> (r: Vec<EntradaDir>)
    ensures
        vista_entradas(r@) == ordenar(visibles(cs@, dirs)),
{
    let mut r: Vec<EntradaDir> = Vec::new();
    let mut i: usize = 0;
    assert(visibles(cs@.take(0), dirs) =~= Seq::empty());
    assert(vista_entradas(r@) =~= ordenar(visibles(cs@.take(0), dirs)));
    while i < cs.len()
        invariant
            i <= cs.len(),
            vista_entradas(r@) == ordenar(visibles(cs@.take(i as int), dirs)),
        decreases cs.len() - i,
    {
        let c = &cs[i];
        assert(cs@.take(i + 1).drop_last() =~= cs@.take(i as int));
        assert(cs@.take(i + 1).last() == cs@[i as int]);
        let n = chars_de(c.nombre.as_str());
        let oc = n.len() > 0 && n[0] == '.';
        assert(oc == oculta(c.nombre@));
        assert(visibles(cs@.take(i + 1), dirs) == (if !oculta(c.nombre@) && c.es_dir == dirs {
            visibles(cs@.take(i as int), dirs).push(entrada_de(c.nombre@, c.es_dir, c.tamano_kb))
        } else {
            visibles(cs@.take(i as int), dirs)
        }));
        if !oc && c.es_dir == dirs {
            let e = entrada_exec(c);
            let ghost ev = e@;
            insertar_exec(&mut r, e);
            assert(visibles(cs@.take(i as int), dirs).push(ev).drop_last() =~= visibles(cs@.take(i as int), dirs));
        }
        i = i + 1;
    }
    assert(cs@.take(cs.len() as int) =~= cs@);
    r
}

fn posicion_en_exec(ids: &Vec<usize>, x: usize) -> (r: usize)
    ensures
        r == posicion_en(ids@, x, 0),
        ids.len() > 0 ==> r < ids.len(),
{
    let mut k: usize = 0;
    while k < ids.len()
        invariant
            k <= ids.len(),
            posicion_en(ids@, x, 0) == posicion_en(ids@, x, k as int),
        decreases ids.len() - k,
    {
        if ids[k] == x {
            return k;
        }
        k = k + 1;
    }
    0
}

fn contiene_usize(ids: &Vec<usize>, x: usize) -> (r: bool)
    ensures
        r == ids@.contains(x),
{
    let mut k: usize = 0;
    while k < ids.len()
        invariant
            k <= ids.len(),
            forall|j: int| 0 <= j < k ==> ids@[j] != x,
        decreases ids.len() - k,
    {
        if ids[k] == x {
            assert(ids@[k as int] == x);
            return true;
        }
        k = k + 1;
    }
    false
}

proof fn lema_filtradas(es: Seq<EntradaV>, f: Seq<char>, n: int)
    requires
        0 <= n <= es.len(),
    ensures
        forall|k: int| 0 <= k < filtradas_hasta(es, f, n).len() ==> #[trigger] filtradas_hasta(es, f, n)[k] < n,
        filtradas_hasta(es, f, n).len() <= n,
    decreases n,
{
    if n > 0 {
        lema_filtradas(es, f, n - 1);
        let p = filtradas_hasta(es, f, n - 1);
        assert forall|k: int| 0 <= k < filtradas_hasta(es, f, n).len() implies #[trigger] filtradas_hasta(es, f, n)[k] < n by {
            if k < p.len() {
                assert(filtradas_hasta(es, f, n)[k] == p[k]);
            }
        }
    }
}

impl NavArchivos {
    /// Explorador abierto en `desde`, con el listado de ese directorio.
    pub fn nuevo(desde: Vec<String>, listado_dir: &Vec<EntradaCruda>) -> (r: NavArchivos)
        ensures
            r@.directorio == vista_dir(desde@),
            r@.entradas == listado(desde@.len() > 0, listado_dir@),
            r@.seleccion == 0,
            r@.scroll == 0,
            r@.filtro.len() == 0,
            r@.error is None,
    {
        let mut nav = NavArchivos {
            directorio: desde,
            entradas: Vec::new(),
            seleccion: 0,
            scroll: 0,
            filtro: String::new(),
            error: None,
        };
        nav.cargar(listado_dir);
        nav
    }

    /// Reemplaza las entradas por el listado del directorio actual y vuelve la
    /// selección y el desplazamiento al comienzo.
    pub fn cargar(&mut self, listado_dir: &Vec<EntradaCruda>)
        ensures
            final(self)@ == (NavV {
                entradas: listado(old(self)@.directorio.len() > 0, listado_dir@),
                seleccion: 0,
                scroll: 0,
                ..old(self)@
            }),
    {
        let mut es: Vec<EntradaDir> = Vec::new();
        if self.directorio.len() > 0 {
            let mut pp = String::new();
            pp.append("..");
            es.push(EntradaDir { nombre: pp, es_dir: true, tamano_kb: 0, ext: String::new() });
        }
        let ghost ini = vista_entradas(es@);
        let dirs = agregar_visibles(listado_dir, true);
        let archivos = agregar_visibles(listado_dir, false);
        let mut d = dirs;
        let mut a = archivos;
        let ghost vd = vista_entradas(d@);
        let ghost va = vista_entradas(a@);
        es.append(&mut d);
        es.append(&mut a);
        assert(vista_entradas(es@) =~= ini + vd + va);
        assert(ini =~= (if self.directorio@.len() > 0 { seq![punto_punto()] } else { Seq::empty() }));
        self.entradas = es;
        self.seleccion = 0;
        self.scroll = 0;
    }

    /// Índices de las entradas cuyo nombre contiene el filtro (sin distinguir
    /// mayúsculas); todas si el filtro está vacío.
    pub fn filtradas(&self) -> (r: Vec<usize>)
        ensures
            r@ == filtradas_spec(self@),
            forall|k: int| 0 <= k < r@.len() ==> #[trigger] r@[k] < self.entradas@.len(),
    {
        let fc = chars_de(self.filtro.as_str());
        let f = a_minusculas(&fc);
        let mut r: Vec<usize> = Vec::new();
        let mut i: usize = 0;
        while i < self.entradas.len()
            invariant
                i <= self.entradas.len(),
                f@ == minusculas_de(self.filtro@),
                f@.len() == 0 <==> self.filtro@.len() == 0,
                r@ == filtradas_hasta(vista_entradas(self.entradas@), self.filtro@, i as int),
            decreases self.entradas.len() - i,
        {
            let nc = chars_de(self.entradas[i].nombre.as_str());
            let nm = a_minusculas(&nc);
            let ok = f.len() == 0 || contiene_exec(&nm, &f);
            if ok {
                r.push(i);
            }
            i = i + 1;
        }
        proof {
            lema_filtradas(vista_entradas(self.entradas@), self.filtro@, self.entradas@.len() as int);
        }
        r
    }

    /// Mueve la selección `delta` lugares entre las entradas filtradas (sin
    /// salirse de la lista).
    pub fn mover(&mut self, delta: i32)
        requires
            old(self).entradas@.len() <= i32::MAX,
        ensures
            final(self)@ == (NavV { seleccion: mover_spec(old(self)@, delta), ..old(self)@ }),
    {
        let ids = self.filtradas();
        if ids.len() == 0 {
            return;
        }
        proof {
            lema_filtradas(vista_entradas(self.entradas@), self.filtro@, self.entradas@.len() as int);
        }
        assert(ids.len() <= self.entradas.len());
        let pos = posicion_en_exec(&ids, self.seleccion) as i64;
        let hi = ids.len() as i64 - 1;
        let v = pos + delta as i64;
        let nuevo = if v < 0 {
            0
        } else if v > hi {
            hi
        } else {
            v
        };
        self.seleccion = ids[nuevo as usize];
    }

    /// Primera posición de las filtradas que se muestra en `visible`
    /// renglones (ver `primera_visible_spec`).
    pub fn primera_visible(&self, visible: usize) -> (r: usize)
        ensures
            r == primera_visible_spec(self@, visible as int),
    {
        let ids = self.filtradas();
        let p = posicion_en_exec(&ids, self.seleccion);
        if p < self.scroll {
            p
        } else if p - self.scroll >= visible {
            p + 1 - visible
        } else {
            self.scroll
        }
    }

    /// Confirma la selección (ver `confirmar_spec`).
    pub fn confirmar(&mut self) -> (r: Accion)
        ensures
            (final(self)@, r@) == confirmar_spec(old(self)@),
    {
        let ids = self.filtradas();
        let esta = contiene_usize(&ids, self.seleccion);
        if ids.len() == 0 && !esta {
            return Accion::Nada;
        }
        let idx = if esta {
            self.seleccion
        } else {
            ids[0]
        };
        let es_dir = self.entradas[idx].es_dir;
        let nc = chars_de(self.entradas[idx].nombre.as_str());
        let nombre = clonar_texto(&self.entradas[idx].nombre);
        if es_dir {
            if igual_a(&nc, "..") {
                if self.directorio.len() == 0 {
                    return Accion::Nada;
                }
                let ghost d0 = vista_dir(self.directorio@);
                self.directorio.pop();
                assert(vista_dir(self.directorio@) =~= d0.drop_last());
                self.filtro = String::new();
                Accion::Recargar
            } else {
                let ghost d0 = vista_dir(self.directorio@);
                let ghost nv = nombre@;
                self.directorio.push(nombre);
                assert(vista_dir(self.directorio@) =~= d0.push(nv));
                self.filtro = String::new();
                Accion::Recargar
            }
        } else {
            let mut ruta: Vec<String> = Vec::new();
            let mut k: usize = 0;
            while k < self.directorio.len()
                invariant
                    k <= self.directorio.len(),
                    vista_dir(ruta@) =~= vista_dir(self.directorio@).take(k as int),
                decreases self.directorio.len() - k,
            {
                let ghost r0 = ruta@;
                let t = clonar_texto(&self.directorio[k]);
                ruta.push(t);
                assert(vista_dir(ruta@) =~= vista_dir(r0).push(t@));
                assert(vista_dir(self.directorio@).take(k + 1) =~= vista_dir(self.directorio@).take(k as int).push(self.directorio@[k as int]@));
                k = k + 1;
            }
            let ghost nv = nombre@;
            let ghost r0 = ruta@;
            ruta.push(nombre);
            assert(vista_dir(self.directorio@).take(self.directorio@.len() as int) =~= vista_dir(self.directorio@));
            assert(vista_dir(ruta@) =~= vista_dir(r0).push(nv));
            assert(vista_dir(ruta@) =~= vista_dir(self.directorio@).push(nv));
            Accion::Abrir(ruta)
        }
    }

    /// Sube al directorio padre, si lo hay. Devuelve si cambió de directorio
    /// (y entonces hay que recargar).
    pub fn subir(&mut self) -> (r: bool)
        ensures
            r == (old(self)@.directorio.len() > 0),
            final(self)@ == if r {
                con_directorio(old(self)@, old(self)@.directorio.drop_last())
            } else {
                old(self)@
            },
    {
        if self.directorio.len() > 0 {
            let ghost d0 = vista_dir(self.directorio@);
            self.directorio.pop();
            assert(vista_dir(self.directorio@) =~= d0.drop_last());
            self.filtro = String::new();
            true
        } else {
            false
        }
    }

    /// Agrega `c` al filtro y selecciona la primera entrada que coincide.
    pub fn tipear(&mut self, c: char)
        ensures
            final(self)@.filtro == old(self)@.filtro.push(c),
            final(self)@.seleccion == if filtradas_spec(NavV { filtro: old(self)@.filtro.push(c), ..old(self)@ }).len() > 0 {
                filtradas_spec(NavV { filtro: old(self)@.filtro.push(c), ..old(self)@ })[0]
            } else {
                old(self)@.seleccion
            },
            final(self)@ == (NavV { filtro: final(self)@.filtro, seleccion: final(self)@.seleccion, ..old(self)@ }),
    {
        empujar(&mut self.filtro, c);
        let ids = self.filtradas();
        if ids.len() > 0 {
            self.seleccion = ids[0];
        }
    }

    /// Borra el último carácter del filtro; con el filtro vacío, sube al
    /// directorio padre. Devuelve si hay que recargar.
    pub fn retroceso(&mut self) -> (r: bool)
        ensures
            old(self)@.filtro.len() > 0 ==> !r && final(self)@ == (NavV { filtro: old(self)@.filtro.drop_last(), ..old(self)@ }),
            old(self)@.filtro.len() == 0 ==> r == (old(self)@.directorio.len() > 0) && final(self)@ == if r {
                con_directorio(old(self)@, old(self)@.directorio.drop_last())
            } else {
                old(self)@
            },
    {
        if self.filtro.as_str().is_empty() {
            self.subir()
        } else {
            quitar_ultimo(&mut self.filtro);
            false
        }
    }
}

/// Clase del archivo de nombre `nombre` (ver `clase_spec`).
pub fn clase_archivo(nombre: &str) -> (r: ClaseArchivo)
    ensures
        r@ == clase_spec(nombre@),
{
    let n = chars_de(nombre);
    let e = a_minusculas(&extension_exec(&n));
    if igual_a(&e, "stl") {
        ClaseArchivo::Stl
    } else if igual_a(&e, "gcode") || igual_a(&e, "gco") || igual_a(&e, "g") {
        ClaseArchivo::Gcode
    } else {
        ClaseArchivo::Otro(texto_de(&e))
    }
}

} // verus!
