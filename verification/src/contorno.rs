//! Armado de contornos: une segmentos sueltos (salida del corte de una capa)
//! en cadenas de puntos, siguiendo el hilo de extremo en extremo.
//!
//! Cada extremo llega con su `clave`: la posición del punto ya ajustada a la
//! grilla de 1 µm. Dos extremos se consideran el mismo punto cuando sus claves
//! coinciden. El punto en sí (`punto`) se transporta sin mirarlo.

use std::collections::HashMap;
use vstd::prelude::*;

verus! {

/// Un extremo de segmento: el punto que se transporta y su clave de grilla.
pub struct Extremo<P> {
    pub punto: P,
    pub clave: (i64, i64),
}

/// Un segmento con sus dos extremos: `a` es el extremo 0 y `b` el extremo 1.
pub struct Segmento<P> {
    pub a: Extremo<P>,
    pub b: Extremo<P>,
}

/// Referencia a un extremo: (índice de segmento, extremo 0 o 1).
pub type Ref = (usize, usize);

// ── Modelo ────────────────────────────────────────────────────────────────────

/// Clave de grilla del extremo `r`.
pub open spec fn clave_de<P>(s: Seq<Segmento<P>>, r: Ref) -> (i64, i64) {
    if r.1 == 0 { s[r.0 as int].a.clave } else { s[r.0 as int].b.clave }
}

/// Punto transportado por el extremo `r`.
pub open spec fn punto_de<P>(s: Seq<Segmento<P>>, r: Ref) -> P {
    if r.1 == 0 { s[r.0 as int].a.punto } else { s[r.0 as int].b.punto }
}

/// El extremo en la posición lineal `t` (segmento `t / 2`, extremo `t % 2`).
pub open spec fn ref_lineal(t: int) -> Ref {
    ((t / 2) as usize, (t % 2) as usize)
}

/// Extremos con clave `k` entre las primeras `t` posiciones lineales, en el
/// orden de la entrada.
pub open spec fn apariciones<P>(s: Seq<Segmento<P>>, k: (i64, i64), t: nat) -> Seq<Ref>
    decreases t,
{
    if t == 0 {
        Seq::empty()
    } else {
        let prev = apariciones(s, k, (t - 1) as nat);
        let r = ref_lineal(t - 1);
        if clave_de(s, r) == k {
            prev.push(r)
        } else {
            prev
        }
    }
}

/// Todos los extremos con clave `k`, en el orden de la entrada.
pub open spec fn lista<P>(s: Seq<Segmento<P>>, k: (i64, i64)) -> Seq<Ref> {
    apariciones(s, k, (2 * s.len()) as nat)
}

/// Primer extremo de `l`, desde la posición `i`, cuyo segmento no está usado.
pub open spec fn primer_libre(l: Seq<Ref>, usados: Seq<bool>, i: int) -> Option<Ref>
    decreases l.len() - i,
{
    if i < 0 || i >= l.len() {
        None
    } else if !usados[l[i].0 as int] {
        Some(l[i])
    } else {
        primer_libre(l, usados, i + 1)
    }
}

/// Cantidad de segmentos todavía no usados.
pub open spec fn libres(u: Seq<bool>) -> nat
    decreases u.len(),
{
    if u.len() == 0 {
        0
    } else {
        libres(u.drop_last()) + if u.last() { 0nat } else { 1nat }
    }
}

/// Sigue la cadena desde el extremo `ext`: en cada paso toma el primer
/// segmento libre que tenga un extremo en la misma celda y salta a su extremo
/// opuesto. Devuelve los extremos visitados (empezando por `ext`) y las
/// marcas de uso al terminar.
pub open spec fn caminar<P>(s: Seq<Segmento<P>>, u: Seq<bool>, ext: Ref) -> (Seq<Ref>, Seq<bool>)
    decreases libres(u),
{
    match primer_libre(lista(s, clave_de(s, ext)), u, 0) {
        Some(r) => {
            if r.0 < u.len() && !u[r.0 as int] {
                proof {
                    lema_libres_marcar(u, r.0 as int);
                }
                let (resto, u2) = caminar(s, u.update(r.0 as int, true), (r.0, (1 - r.1) as usize));
                (seq![ext] + resto, u2)
            } else {
                (seq![ext], u)
            }
        },
        None => (seq![ext], u),
    }
}

/// La cadena que arranca en el segmento `i` (sin usar): su extremo 0 y luego
/// la caminata desde su extremo 1, sin el último punto si repite la celda del
/// primero. Devuelve también las marcas de uso resultantes.
pub open spec fn cadena_desde<P>(s: Seq<Segmento<P>>, u: Seq<bool>, i: usize) -> (Seq<Ref>, Seq<bool>) {
    let (cam, u2) = caminar(s, u.update(i as int, true), (i, 1usize));
    let c = seq![(i, 0usize)] + cam;
    if clave_de(s, c[0]) == clave_de(s, c.last()) {
        (c.drop_last(), u2)
    } else {
        (c, u2)
    }
}

/// Contornos que se arman recorriendo los segmentos desde el índice `i`.
pub open spec fn contornos_desde<P>(s: Seq<Segmento<P>>, u: Seq<bool>, i: int) -> Seq<Seq<Ref>>
    decreases s.len() - i,
{
    if i < 0 || i >= s.len() {
        Seq::empty()
    } else if u[i] {
        contornos_desde(s, u, i + 1)
    } else {
        let (c, u2) = cadena_desde(s, u, i as usize);
        let resto = contornos_desde(s, u2, i + 1);
        if c.len() >= 3 {
            seq![c] + resto
        } else {
            resto
        }
    }
}

/// Contornos (como referencias a extremos) que se arman con `s`.
pub open spec fn contornos_refs<P>(s: Seq<Segmento<P>>) -> Seq<Seq<Ref>> {
    contornos_desde(s, Seq::new(s.len(), |i: int| false), 0)
}

/// Contornos (como puntos) que se arman con `s`.
pub open spec fn contornos_spec<P>(s: Seq<Segmento<P>>) -> Seq<Seq<P>> {
    contornos_refs(s).map_values(|c: Seq<Ref>| c.map_values(|r: Ref| punto_de(s, r)))
}

/// Vista de un vector de vectores como secuencia de secuencias.
pub open spec fn vista2<T>(v: Seq<Vec<T>>) -> Seq<Seq<T>> {
    v.map_values(|x: Vec<T>| x@)
}

// ── Lemas ─────────────────────────────────────────────────────────────────────

pub proof fn lema_libres_marcar(u: Seq<bool>, i: int)
    requires
        0 <= i < u.len(),
        !u[i],
    ensures
        libres(u.update(i, true)) + 1 == libres(u),
    decreases u.len(),
{
    let v = u.update(i, true);
    if i == u.len() - 1 {
        assert(v.drop_last() =~= u.drop_last());
    } else {
        assert(v.drop_last() =~= u.drop_last().update(i, true));
        lema_libres_marcar(u.drop_last(), i);
    }
}

proof fn lema_apariciones<P>(s: Seq<Segmento<P>>, k: (i64, i64), t: nat)
    requires
        t <= 2 * s.len(),
        s.len() <= usize::MAX,
    ensures
        forall|j: int|
            0 <= j < apariciones(s, k, t).len() ==> {
                let r = #[trigger] apariciones(s, k, t)[j];
                &&& 2 * r.0 + r.1 < t
                &&& r.1 < 2
                &&& clave_de(s, r) == k
            },
    decreases t,
{
    if t > 0 {
        lema_apariciones(s, k, (t - 1) as nat);
        let q = (t - 1) / 2;
        let m = (t - 1) % 2;
        assert(2 * q + m == t - 1 && 0 <= m < 2);
        assert(ref_lineal(t - 1).0 == q && ref_lineal(t - 1).1 == m);
        let prev = apariciones(s, k, (t - 1) as nat);
        let a = apariciones(s, k, t);
        assert forall|j: int| 0 <= j < a.len() implies {
            let r = #[trigger] a[j];
            &&& 2 * r.0 + r.1 < t
            &&& r.1 < 2
            &&& clave_de(s, r) == k
        } by {
            if j < prev.len() {
                assert(a[j] == prev[j]);
            }
        }
    }
}

proof fn lema_caminar_largo<P>(s: Seq<Segmento<P>>, u: Seq<bool>, ext: Ref)
    ensures
        caminar(s, u, ext).1.len() == u.len(),
        caminar(s, u, ext).0.len() >= 1,
        caminar(s, u, ext).0[0] == ext,
    decreases libres(u),
{
    match primer_libre(lista(s, clave_de(s, ext)), u, 0) {
        Some(r) => {
            if r.0 < u.len() && !u[r.0 as int] {
                lema_libres_marcar(u, r.0 as int);
                lema_caminar_largo(s, u.update(r.0 as int, true), (r.0, (1 - r.1) as usize));
            }
        },
        None => {},
    }
}

// ── Código ────────────────────────────────────────────────────────────────────

/// Clave única de 128 bits para una celda de la grilla.
fn empaquetar(k: (i64, i64)) -> (r: i128)
    ensures
        r == empaquetada(k),
{
    (k.0 as i128) * 0x1_0000_0000_0000_0000i128 + ((k.1 as i128) + 0x8000_0000_0000_0000i128)
}

spec fn empaquetada(k: (i64, i64)) -> i128 {
    ((k.0 as int) * 0x1_0000_0000_0000_0000int + ((k.1 as int) + 0x8000_0000_0000_0000int)) as i128
}

proof fn lema_empaquetada_inyectiva(k1: (i64, i64), k2: (i64, i64))
    ensures
        empaquetada(k1) == empaquetada(k2) ==> k1 == k2,
{
    let a1 = k1.0 as int;
    let a2 = k2.0 as int;
    let b1 = (k1.1 as int) + 0x8000_0000_0000_0000int;
    let b2 = (k2.1 as int) + 0x8000_0000_0000_0000int;
    assert(a1 * 0x1_0000_0000_0000_0000int + b1 == empaquetada(k1) as int);
    assert(a2 * 0x1_0000_0000_0000_0000int + b2 == empaquetada(k2) as int);
    if empaquetada(k1) == empaquetada(k2) {
        assert(a1 == a2 && b1 == b2) by (nonlinear_arith)
            requires
                a1 * 0x1_0000_0000_0000_0000int + b1 == a2 * 0x1_0000_0000_0000_0000int + b2,
                0 <= b1 < 0x1_0000_0000_0000_0000int,
                0 <= b2 < 0x1_0000_0000_0000_0000int,
        ;
    }
}

fn clave_ref<P>(segs: &Vec<Segmento<P>>, r: Ref) -> (k: (i64, i64))
    requires
        r.0 < segs.len(),
    ensures
        k == clave_de(segs@, r),
{
    if r.1 == 0 { segs[r.0].a.clave } else { segs[r.0].b.clave }
}

fn punto_ref<P: Copy>(segs: &Vec<Segmento<P>>, r: Ref) -> (p: P)
    requires
        r.0 < segs.len(),
    ensures
        p == punto_de(segs@, r),
{
    if r.1 == 0 { segs[r.0].a.punto } else { segs[r.0].b.punto }
}

fn buscar_libre(l: &Vec<Ref>, usados: &Vec<bool>) -> (res: Option<Ref>)
    requires
        forall|j: int| 0 <= j < l.len() ==> (#[trigger] l[j]).0 < usados.len(),
    ensures
        res == primer_libre(l@, usados@, 0),
{
    let mut i: usize = 0;
    while i < l.len()
        invariant
            i <= l.len(),
            forall|j: int| 0 <= j < l.len() ==> (#[trigger] l[j]).0 < usados.len(),
            primer_libre(l@, usados@, 0) == primer_libre(l@, usados@, i as int),
        decreases l.len() - i,
    {
        if !usados[l[i].0] {
            return Some(l[i]);
        }
        i = i + 1;
    }
    None
}

proof fn lema_primer_libre(l: Seq<Ref>, u: Seq<bool>, i: int)
    ensures
        primer_libre(l, u, i) matches Some(r) ==> exists|j: int|
            0 <= j < l.len() && #[trigger] l[j] == r && !u[r.0 as int],
    decreases l.len() - i,
{
    if 0 <= i < l.len() && u[l[i].0 as int] {
        lema_primer_libre(l, u, i + 1);
    }
}

/// El índice del mapa coincide con `lista` para toda clave.
spec fn indice_ok<P>(s: Seq<Segmento<P>>, m: Map<i128, Vec<Ref>>) -> bool {
    forall|k: (i64, i64)|
        #![trigger lista(s, k)]
        (m.contains_key(empaquetada(k)) ==> m[empaquetada(k)]@ == lista(s, k)) && (
        !m.contains_key(empaquetada(k)) ==> lista(s, k).len() == 0)
}

spec fn indice_parcial<P>(s: Seq<Segmento<P>>, m: Map<i128, Vec<Ref>>, t: nat) -> bool {
    forall|k: (i64, i64)|
        #![trigger apariciones(s, k, t)]
        (m.contains_key(empaquetada(k)) ==> m[empaquetada(k)]@ == apariciones(s, k, t)) && (
        !m.contains_key(empaquetada(k)) ==> apariciones(s, k, t).len() == 0)
}

/// Indexa cada extremo por su celda de grilla, en el orden de la entrada.
fn indexar<P>(segs: &Vec<Segmento<P>>) -> (mapa: HashMap<i128, Vec<Ref>>)
    ensures
        indice_ok(segs@, mapa@),
{
    let n = segs.len();
    let ghost s = segs@;
    let mut mapa: HashMap<i128, Vec<Ref>> = HashMap::new();
    let mut i: usize = 0;
    while i < n
        invariant
            n == segs.len(),
            s == segs@,
            i <= n,
            indice_parcial(s, mapa@, (2 * i) as nat),
        decreases n - i,
    {
        let mut j: usize = 0;
        while j < 2
            invariant
                n == segs.len(),
                s == segs@,
                i < n,
                j <= 2,
                indice_parcial(s, mapa@, (2 * i + j) as nat),
            decreases 2 - j,
        {
            let k = clave_ref(segs, (i, j));
            let kk = empaquetar(k);
            let ghost t = (2 * i + j) as nat;
            let anterior = mapa.remove(&kk);
            let mut v = match anterior {
                Some(v) => v,
                None => Vec::new(),
            };
            v.push((i, j));
            mapa.insert(kk, v);
            proof {
                assert(ref_lineal(t as int) == (i, j));
                assert forall|k2: (i64, i64)|
                    #![trigger apariciones(s, k2, (t + 1) as nat)]
                    (mapa@.contains_key(empaquetada(k2)) ==> mapa@[empaquetada(k2)]@
                        == apariciones(s, k2, (t + 1) as nat)) && (!mapa@.contains_key(
                        empaquetada(k2)) ==> apariciones(s, k2, (t + 1) as nat).len() == 0) by {
                    lema_empaquetada_inyectiva(k, k2);
                    assert(apariciones(s, k2, (t + 1) as nat) == (if clave_de(s, (i, j)) == k2 {
                        apariciones(s, k2, t).push((i, j))
                    } else {
                        apariciones(s, k2, t)
                    }));
                    if k2 == k {
                    } else {
                        assert(apariciones(s, k2, t) == apariciones(s, k2, t));
                    }
                }
            }
            j = j + 1;
        }
        i = i + 1;
    }
    mapa
}

/// Arma los contornos como listas de referencias a extremos.
fn armar_refs<P>(segs: &Vec<Segmento<P>>) -> (res: Vec<Vec<Ref>>)
    ensures
        vista2(res@) == contornos_refs(segs@),
{
    let n = segs.len();
    let ghost s = segs@;
    let mapa = indexar(segs);
    proof {
        assert forall|k: (i64, i64)|
            forall|j: int|
                0 <= j < #[trigger] lista(s, k).len() ==> (lista(s, k)[j]).0 < n && (lista(
                    s,
                    k,
                )[j]).1 < 2 && clave_de(s, lista(s, k)[j]) == k by {
            lema_apariciones(s, k, (2 * n) as nat);
        }
    }
    let mut usados: Vec<bool> = Vec::new();
    while usados.len() < n
        invariant
            usados.len() <= n,
            forall|j: int| 0 <= j < usados.len() ==> !usados[j],
        decreases n - usados.len(),
    {
        usados.push(false);
    }
    assert(usados@ =~= Seq::new(s.len(), |i: int| false));
    let mut res: Vec<Vec<Ref>> = Vec::new();
    let mut inicio: usize = 0;
    while inicio < n
        invariant
            n == segs.len(),
            s == segs@,
            usados.len() == n,
            inicio <= n,
            indice_ok(s, mapa@),
            forall|k: (i64, i64)|
                forall|j: int|
                    0 <= j < #[trigger] lista(s, k).len() ==> (lista(s, k)[j]).0 < n && (lista(
                        s,
                        k,
                    )[j]).1 < 2 && clave_de(s, lista(s, k)[j]) == k,
            vista2(res@) + contornos_desde(s, usados@, inicio as int) == contornos_refs(s),
        decreases n - inicio,
    {
        if usados[inicio] {
            inicio = inicio + 1;
            continue;
        }
        let ghost u0 = usados@;
        usados.set(inicio, true);
        let mut contorno: Vec<Ref> = Vec::new();
        contorno.push((inicio, 0));
        let mut extremo: Ref = (inicio, 1);
        let ghost objetivo = caminar(s, u0.update(inicio as int, true), (inicio, 1usize));
        loop
            invariant_except_break
                n == segs.len(),
                s == segs@,
                usados.len() == n,
                extremo.0 < n,
                extremo.1 < 2,
                indice_ok(s, mapa@),
                forall|k: (i64, i64)|
                    forall|j: int|
                        0 <= j < #[trigger] lista(s, k).len() ==> (lista(s, k)[j]).0 < n && (
                        lista(s, k)[j]).1 < 2 && clave_de(s, lista(s, k)[j]) == k,
                contorno@ + caminar(s, usados@, extremo).0 == seq![(inicio, 0usize)]
                    + objetivo.0,
                caminar(s, usados@, extremo).1 == objetivo.1,
            ensures
                usados.len() == n,
                contorno@ == seq![(inicio, 0usize)] + objetivo.0,
                usados@ == objetivo.1,
            decreases libres(usados@),
        {
            let ghost u = usados@;
            let ghost c = contorno@;
            let ghost ext = extremo;
            contorno.push(extremo);
            let k = clave_ref(segs, extremo);
            let kk = empaquetar(k);
            let sig = match mapa.get(&kk) {
                Some(l) => buscar_libre(l, &usados),
                None => None,
            };
            proof {
                lema_primer_libre(lista(s, k), u, 0);
                if !mapa@.contains_key(empaquetada(k)) {
                    assert(lista(s, k).len() == 0);
                }
            }
            assert(sig == primer_libre(lista(s, k), u, 0));
            match sig {
                Some(r) => {
                    proof {
                        lema_libres_marcar(u, r.0 as int);
                    }
                    usados.set(r.0, true);
                    extremo = (r.0, 1 - r.1);
                    assert(contorno@ + caminar(s, usados@, extremo).0 =~= c + caminar(
                        s,
                        u,
                        ext,
                    ).0);
                },
                None => {
                    assert(contorno@ =~= c + caminar(s, u, ext).0);
                    break ;
                },
            }
        }
        proof {
            lema_caminar_valido(s, u0.update(inicio as int, true), (inicio, 1usize));
            assert forall|j: int| 0 <= j < contorno@.len() implies ref_valida(s, #[trigger] contorno@[j]) by {
                if j > 0 {
                    assert(contorno@[j] == objetivo.0[j - 1]);
                }
            }
        }
        let primero = contorno[0];
        let ultimo = contorno[contorno.len() - 1];
        let k1 = clave_ref(segs, primero);
        let k2 = clave_ref(segs, ultimo);
        if k1.0 == k2.0 && k1.1 == k2.1 {
            contorno.pop();
        }
        let ghost u2 = usados@;
        proof {
            lema_caminar_largo(s, u0.update(inicio as int, true), (inicio, 1usize));
        }
        if contorno.len() >= 3 {
            res.push(contorno);
        }
        assert(vista2(res@) + contornos_desde(s, usados@, inicio + 1) =~= contornos_refs(s));
        inicio = inicio + 1;
    }
    assert(vista2(res@) =~= contornos_refs(s));
    res
}

/// Toma segmentos sin ordenar y devuelve las cadenas que forman.
///
/// Por cada segmento todavía no usado (en el orden de la entrada) arranca una
/// cadena en su extremo 0, sigue por su extremo 1 y, mientras haya un segmento
/// libre con un extremo en la misma celda de grilla, lo toma (el primero en el
/// orden de la entrada) y salta a su extremo opuesto. Si el último punto cae
/// en la celda del primero, se descarta (el contorno está cerrado). Sólo se
/// devuelven las cadenas de al menos 3 puntos.
pub fn construir_contornos<P: Copy>(segmentos: &Vec<Segmento<P>>) -> (res: Vec<Vec<P>>)
    ensures
        vista2(res@) == contornos_spec(segmentos@),
{
    let ghost s = segmentos@;
    let refs = armar_refs(segmentos);
    proof {
        assert(s.len() == segmentos.len());
        lema_refs_validas(s);
    }
    let mut res: Vec<Vec<P>> = Vec::new();
    let mut c: usize = 0;
    while c < refs.len()
        invariant
            s == segmentos@,
            vista2(refs@) == contornos_refs(s),
            forall|a: int, b: int|
                0 <= a < contornos_refs(s).len() && 0 <= b < contornos_refs(s)[a].len() ==> (
                #[trigger] contornos_refs(s)[a][b]).0 < s.len(),
            c <= refs.len(),
            vista2(res@) =~= contornos_spec(s).subrange(0, c as int),
        decreases refs.len() - c,
    {
        let ghost old_res = res@;
        let mut pts: Vec<P> = Vec::new();
        let mut i: usize = 0;
        assert(refs[c as int]@ == contornos_refs(s)[c as int]);
        while i < refs[c].len()
            invariant
                s == segmentos@,
                vista2(refs@) == contornos_refs(s),
                c < refs.len(),
                refs[c as int]@ == contornos_refs(s)[c as int],
                forall|b: int|
                    0 <= b < contornos_refs(s)[c as int].len() ==> (
                    #[trigger] contornos_refs(s)[c as int][b]).0 < s.len(),
                i <= refs[c as int].len(),
                pts@ =~= contornos_refs(s)[c as int].subrange(0, i as int).map_values(
                    |r: Ref| punto_de(s, r),
                ),
            decreases refs[c as int].len() - i,
        {
            let r = refs[c][i];
            pts.push(punto_ref(segmentos, r));
            i = i + 1;
        }
        assert(contornos_refs(s)[c as int].subrange(0, i as int) =~= contornos_refs(s)[c as int]);
        assert(pts@ == contornos_spec(s)[c as int]);
        res.push(pts);
        assert(vista2(res@) =~= vista2(old_res).push(pts@));
        c = c + 1;
    }
    res
}

/// Una referencia válida dentro de `s`.
pub open spec fn ref_valida<P>(s: Seq<Segmento<P>>, r: Ref) -> bool {
    r.0 < s.len() && r.1 < 2
}

proof fn lema_lista_valida<P>(s: Seq<Segmento<P>>, k: (i64, i64))
    requires
        s.len() <= usize::MAX,
    ensures
        forall|j: int|
            0 <= j < lista(s, k).len() ==> ref_valida(s, #[trigger] lista(s, k)[j])
                && clave_de(s, lista(s, k)[j]) == k,
{
    lema_apariciones(s, k, (2 * s.len()) as nat);
}

proof fn lema_caminar_valido<P>(s: Seq<Segmento<P>>, u: Seq<bool>, ext: Ref)
    requires
        s.len() <= usize::MAX,
        ref_valida(s, ext),
    ensures
        forall|j: int|
            0 <= j < caminar(s, u, ext).0.len() ==> ref_valida(s, #[trigger] caminar(s, u, ext).0[j]),
    decreases libres(u),
{
    let l = lista(s, clave_de(s, ext));
    match primer_libre(l, u, 0) {
        Some(r) => {
            if r.0 < u.len() && !u[r.0 as int] {
                lema_primer_libre(l, u, 0);
                lema_lista_valida(s, clave_de(s, ext));
                lema_libres_marcar(u, r.0 as int);
                let sig = (r.0, (1 - r.1) as usize);
                lema_caminar_valido(s, u.update(r.0 as int, true), sig);
                let resto = caminar(s, u.update(r.0 as int, true), sig).0;
                assert forall|j: int| 0 <= j < caminar(s, u, ext).0.len() implies ref_valida(
                    s,
                    #[trigger] caminar(s, u, ext).0[j],
                ) by {
                    if j > 0 {
                        assert(caminar(s, u, ext).0[j] == resto[j - 1]);
                    }
                }
            }
        },
        None => {},
    }
}

proof fn lema_cadena_valida<P>(s: Seq<Segmento<P>>, u: Seq<bool>, i: usize)
    requires
        s.len() <= usize::MAX,
        i < s.len(),
    ensures
        forall|j: int|
            0 <= j < cadena_desde(s, u, i).0.len() ==> ref_valida(s, #[trigger] cadena_desde(s, u, i).0[j]),
{
    let cam = caminar(s, u.update(i as int, true), (i, 1usize));
    lema_caminar_valido(s, u.update(i as int, true), (i, 1usize));
    let c = seq![(i, 0usize)] + cam.0;
    assert forall|j: int| 0 <= j < c.len() implies ref_valida(s, #[trigger] c[j]) by {
        if j > 0 {
            assert(c[j] == cam.0[j - 1]);
        }
    }
}

proof fn lema_contornos_validos<P>(s: Seq<Segmento<P>>, u: Seq<bool>, i: int)
    requires
        s.len() <= usize::MAX,
    ensures
        forall|a: int, b: int|
            0 <= a < contornos_desde(s, u, i).len() && 0 <= b < contornos_desde(s, u, i)[a].len()
                ==> ref_valida(s, #[trigger] contornos_desde(s, u, i)[a][b]),
    decreases s.len() - i,
{
    if 0 <= i < s.len() {
        if u[i] {
            lema_contornos_validos(s, u, i + 1);
            assert(contornos_desde(s, u, i) == contornos_desde(s, u, i + 1));
        } else {
            let (c, u2) = cadena_desde(s, u, i as usize);
            lema_cadena_valida(s, u, i as usize);
            lema_contornos_validos(s, u2, i + 1);
            let resto = contornos_desde(s, u2, i + 1);
            if c.len() < 3 {
                assert(contornos_desde(s, u, i) == resto);
            } else {
                assert(contornos_desde(s, u, i) == seq![c] + resto);
                assert forall|a: int, b: int|
                    0 <= a < contornos_desde(s, u, i).len() && 0 <= b < contornos_desde(
                        s,
                        u,
                        i,
                    )[a].len() implies ref_valida(s, #[trigger] contornos_desde(s, u, i)[a][b]) by {
                    if a > 0 {
                        assert(contornos_desde(s, u, i)[a] == resto[a - 1]);
                    }
                }
            }
        }
    }
}

proof fn lema_refs_validas<P>(s: Seq<Segmento<P>>)
    requires
        s.len() <= usize::MAX,
    ensures
        forall|a: int, b: int|
            0 <= a < contornos_refs(s).len() && 0 <= b < contornos_refs(s)[a].len() ==> (
            #[trigger] contornos_refs(s)[a][b]).0 < s.len(),
{
    lema_contornos_validos(s, Seq::new(s.len(), |i: int| false), 0);

}

// ── Leyes ─────────────────────────────────────────────────────────────────────

/// `r2` sigue a `r1` en una cadena: el extremo opuesto a `r2` en su segmento
/// cae en la misma celda de grilla que `r1`.
pub open spec fn enlazados<P>(s: Seq<Segmento<P>>, r1: Ref, r2: Ref) -> bool {
    r2.1 < 2 && clave_de(s, (r2.0, (1 - r2.1) as usize)) == clave_de(s, r1)
}

/// Cada punto de `c` está unido al siguiente por un segmento de `s`.
pub open spec fn encadenado<P>(s: Seq<Segmento<P>>, c: Seq<Ref>) -> bool {
    forall|k: int| 0 <= k < c.len() - 1 ==> enlazados(s, #[trigger] c[k], c[k + 1])
}

/// Ningún segmento tiene sus dos extremos en la misma celda.
pub open spec fn sin_degenerados<P>(s: Seq<Segmento<P>>) -> bool {
    forall|i: int| 0 <= i < s.len() ==> (#[trigger] s[i]).a.clave != s[i].b.clave
}

/// Propiedades de una caminata: encadenada, visita sólo segmentos libres en
/// `u` (salvo el de partida), todos distintos, y los deja marcados.
spec fn caminata_ok<P>(s: Seq<Segmento<P>>, u: Seq<bool>, q: Seq<Ref>, u2: Seq<bool>) -> bool {
    &&& encadenado(s, q)
    &&& u2.len() == u.len()
    &&& forall|j: int| 1 <= j < q.len() ==> #[trigger] q[j].0 < u.len() && !u[q[j].0 as int] && u2[q[j].0 as int]
    &&& forall|j1: int, j2: int| 1 <= j1 < j2 < q.len() ==> #[trigger] q[j1].0 != #[trigger] q[j2].0
    &&& forall|x: int| 0 <= x < u.len() && #[trigger] u[x] ==> u2[x]
}

proof fn lema_caminar_props<P>(s: Seq<Segmento<P>>, u: Seq<bool>, ext: Ref)
    requires
        s.len() <= usize::MAX,
        u.len() == s.len(),
        ref_valida(s, ext),
    ensures
        caminata_ok(s, u, caminar(s, u, ext).0, caminar(s, u, ext).1),
    decreases libres(u),
{
    let l = lista(s, clave_de(s, ext));
    match primer_libre(l, u, 0) {
        Some(r) => {
            if r.0 < u.len() && !u[r.0 as int] {
                lema_primer_libre(l, u, 0);
                lema_lista_valida(s, clave_de(s, ext));
                lema_libres_marcar(u, r.0 as int);
                let u1 = u.update(r.0 as int, true);
                let sig = (r.0, (1 - r.1) as usize);
                lema_caminar_props(s, u1, sig);
                lema_caminar_largo(s, u1, sig);
                let (resto, u2) = caminar(s, u1, sig);
                let q = seq![ext] + resto;
                assert(caminar(s, u, ext) == (q, u2));
                assert forall|k: int| 0 <= k < q.len() - 1 implies enlazados(s, #[trigger] q[k], q[k + 1]) by {
                    if k > 0 {
                        assert(q[k] == resto[k - 1] && q[k + 1] == resto[k]);
                    } else {
                        assert(q[1] == sig);
                        assert((sig.0, (1 - sig.1) as usize) == r);
                    }
                }
                assert forall|j: int| 1 <= j < q.len() implies #[trigger] q[j].0 < u.len() && !u[q[j].0 as int] && u2[q[j].0 as int] by {
                    assert(q[j] == resto[j - 1]);
                    if j > 1 {
                        assert(!u1[resto[j - 1].0 as int]);
                    } else {
                        assert(u1[r.0 as int]);
                    }
                }
                assert forall|j1: int, j2: int| 1 <= j1 < j2 < q.len() implies #[trigger] q[j1].0 != #[trigger] q[j2].0 by {
                    assert(q[j1] == resto[j1 - 1] && q[j2] == resto[j2 - 1]);
                    if j1 == 1 {
                        assert(!u1[resto[j2 - 1].0 as int]);
                        assert(u1[r.0 as int]);
                    }
                }
                assert forall|x: int| 0 <= x < u.len() && #[trigger] u[x] implies u2[x] by {
                    assert(u1[x]);
                }
            }
        },
        None => {},
    }
}

/// Propiedades de los contornos armados desde `i` con marcas `u`.
spec fn contornos_ok<P>(s: Seq<Segmento<P>>, u: Seq<bool>, cs: Seq<Seq<Ref>>) -> bool {
    &&& forall|a: int| 0 <= a < cs.len() ==> (#[trigger] cs[a]).len() >= 3
    &&& forall|a: int| 0 <= a < cs.len() ==> encadenado(s, #[trigger] cs[a])
    &&& forall|a: int| 0 <= a < cs.len() ==> (#[trigger] cs[a])[0].0 == cs[a][1].0
    &&& forall|a: int, b: int| 0 <= a < cs.len() && 0 <= b < cs[a].len() ==>
            (#[trigger] cs[a][b]).0 < u.len() && !u[cs[a][b].0 as int]
    &&& forall|a1: int, b1: int, a2: int, b2: int|
            0 <= a1 < cs.len() && 1 <= b1 < cs[a1].len() && 0 <= a2 < cs.len() && 1 <= b2 < cs[a2].len()
            && (a1 != a2 || b1 != b2) ==> (#[trigger] cs[a1][b1]).0 != (#[trigger] cs[a2][b2]).0
    &&& sin_degenerados(s) ==> forall|a: int| 0 <= a < cs.len() ==>
            clave_de(s, (#[trigger] cs[a])[0]) != clave_de(s, cs[a].last())
}

proof fn lema_cadena_props<P>(s: Seq<Segmento<P>>, u: Seq<bool>, i: usize)
    requires
        s.len() <= usize::MAX,
        u.len() == s.len(),
        i < s.len(),
        !u[i as int],
    ensures
        ({
            let (c, u2) = cadena_desde(s, u, i);
            &&& c.len() >= 2 ==> c[0].0 == c[1].0
            &&& encadenado(s, c)
            &&& u2.len() == u.len()
            &&& forall|j: int| 0 <= j < c.len() ==> #[trigger] c[j].0 < u.len() && !u[c[j].0 as int] && u2[c[j].0 as int]
            &&& forall|j1: int, j2: int| 1 <= j1 < j2 < c.len() ==> #[trigger] c[j1].0 != #[trigger] c[j2].0
            &&& forall|x: int| 0 <= x < u.len() && #[trigger] u[x] ==> u2[x]
            &&& sin_degenerados(s) && c.len() >= 2 ==> clave_de(s, c[0]) != clave_de(s, c.last())
        }),
{
    let u1 = u.update(i as int, true);
    lema_caminar_props(s, u1, (i, 1usize));
    lema_caminar_largo(s, u1, (i, 1usize));
    lema_caminar_valido(s, u1, (i, 1usize));
    let (cam, u2) = caminar(s, u1, (i, 1usize));
    let c = seq![(i, 0usize)] + cam;
    assert(c[1] == (i, 1usize));
    assert(encadenado(s, c)) by {
        assert forall|k: int| 0 <= k < c.len() - 1 implies enlazados(s, #[trigger] c[k], c[k + 1]) by {
            if k > 0 {
                assert(c[k] == cam[k - 1] && c[k + 1] == cam[k]);
            }
        }
    }
    assert forall|j: int| 0 <= j < c.len() implies #[trigger] c[j].0 < u.len() && !u[c[j].0 as int] && u2[c[j].0 as int] by {
        if j >= 2 {
            assert(c[j] == cam[j - 1]);
            assert(!u1[cam[j - 1].0 as int]);
        } else {
            assert(u1[i as int]);
        }
    }
    assert forall|j1: int, j2: int| 1 <= j1 < j2 < c.len() implies #[trigger] c[j1].0 != #[trigger] c[j2].0 by {
        assert(c[j1] == cam[j1 - 1] && c[j2] == cam[j2 - 1]);
        if j1 == 1 {
            assert(!u1[cam[j2 - 1].0 as int]);
            assert(u1[i as int]);
        }
    }
    assert forall|x: int| 0 <= x < u.len() && #[trigger] u[x] implies u2[x] by {
        assert(u1[x]);
    }
    if sin_degenerados(s) {
        // Dos extremos consecutivos nunca comparten celda.
        assert forall|k: int| 0 <= k < c.len() - 1 implies clave_de(s, #[trigger] c[k]) != clave_de(s, c[k + 1]) by {
            let r2 = c[k + 1];
            assert(enlazados(s, c[k], r2));
            assert(ref_valida(s, r2));
            assert(s[r2.0 as int].a.clave != s[r2.0 as int].b.clave);
        }
        if clave_de(s, c[0]) == clave_de(s, c.last()) {
            let d = c.drop_last();
            if d.len() >= 2 {
                assert(d.last() == c[c.len() - 2]);
                assert(clave_de(s, c[c.len() - 2]) != clave_de(s, c[c.len() - 1]));
            }
        }
    }
}

proof fn lema_contornos_props<P>(s: Seq<Segmento<P>>, u: Seq<bool>, i: int)
    requires
        s.len() <= usize::MAX,
        u.len() == s.len(),
    ensures
        contornos_ok(s, u, contornos_desde(s, u, i)),
    decreases s.len() - i,
{
    if 0 <= i < s.len() {
        if u[i] {
            lema_contornos_props(s, u, i + 1);
            assert(contornos_desde(s, u, i) == contornos_desde(s, u, i + 1));
        } else {
            let (c0, u2) = caminar(s, u.update(i, true), (i as usize, 1usize));
            let (c, u3) = cadena_desde(s, u, i as usize);
            lema_cadena_props(s, u, i as usize);
            lema_contornos_props(s, u3, i + 1);
            let resto = contornos_desde(s, u3, i + 1);
            if c.len() < 3 {
                assert(contornos_desde(s, u, i) == resto);
                let cs = resto;
                assert forall|a: int, b: int| 0 <= a < cs.len() && 0 <= b < cs[a].len() implies
                    (#[trigger] cs[a][b]).0 < u.len() && !u[cs[a][b].0 as int] by {
                    if u[cs[a][b].0 as int] {
                        assert(u3[cs[a][b].0 as int]);
                    }
                }
            } else {
                let cs = seq![c] + resto;
                assert(contornos_desde(s, u, i) == cs);
                assert forall|a: int| 0 <= a < cs.len() implies (#[trigger] cs[a]).len() >= 3 by {
                    if a > 0 { assert(cs[a] == resto[a - 1]); }
                }
                assert forall|a: int| 0 <= a < cs.len() implies encadenado(s, #[trigger] cs[a]) by {
                    if a > 0 { assert(cs[a] == resto[a - 1]); }
                }
                assert forall|a: int| 0 <= a < cs.len() implies (#[trigger] cs[a])[0].0 == cs[a][1].0 by {
                    if a > 0 { assert(cs[a] == resto[a - 1]); }
                }
                assert forall|a: int, b: int| 0 <= a < cs.len() && 0 <= b < cs[a].len() implies
                    (#[trigger] cs[a][b]).0 < u.len() && !u[cs[a][b].0 as int] by {
                    if a > 0 {
                        assert(cs[a] == resto[a - 1]);
                        if u[cs[a][b].0 as int] {
                            assert(u3[cs[a][b].0 as int]);
                        }
                    }
                }
                assert forall|a1: int, b1: int, a2: int, b2: int|
                    0 <= a1 < cs.len() && 1 <= b1 < cs[a1].len() && 0 <= a2 < cs.len() && 1 <= b2 < cs[a2].len()
                    && (a1 != a2 || b1 != b2) implies (#[trigger] cs[a1][b1]).0 != (#[trigger] cs[a2][b2]).0 by {
                    if a1 == 0 && a2 > 0 {
                        assert(cs[a2] == resto[a2 - 1]);
                        assert(u3[c[b1].0 as int]);
                    } else if a2 == 0 && a1 > 0 {
                        assert(cs[a1] == resto[a1 - 1]);
                        assert(u3[c[b2].0 as int]);
                    } else if a1 > 0 && a2 > 0 {
                        assert(cs[a1] == resto[a1 - 1]);
                        assert(cs[a2] == resto[a2 - 1]);
                    }
                }
                if sin_degenerados(s) {
                    assert forall|a: int| 0 <= a < cs.len() implies
                        clave_de(s, (#[trigger] cs[a])[0]) != clave_de(s, cs[a].last()) by {
                        if a > 0 { assert(cs[a] == resto[a - 1]); }
                    }
                }
            }
        }
    }
}

/// Todo contorno devuelto tiene al menos 3 puntos.
pub proof fn ley_contornos_de_tres_o_mas<P>(s: Seq<Segmento<P>>)
    requires
        s.len() <= usize::MAX,
    ensures
        forall|a: int| 0 <= a < contornos_spec(s).len() ==> (#[trigger] contornos_spec(s)[a]).len() >= 3,
{
    let u = Seq::new(s.len(), |i: int| false);
    lema_contornos_props(s, u, 0);
    let cs = contornos_refs(s);
    assert forall|a: int| 0 <= a < contornos_spec(s).len() implies (#[trigger] contornos_spec(s)[a]).len() >= 3 by {
        assert(cs[a].len() >= 3);
    }
}

/// En cada contorno, cada punto está unido al siguiente por un segmento de la
/// entrada (el extremo opuesto del segmento cae en la celda del punto anterior).
pub proof fn ley_contornos_encadenados<P>(s: Seq<Segmento<P>>)
    requires
        s.len() <= usize::MAX,
    ensures
        forall|a: int| 0 <= a < contornos_refs(s).len() ==> encadenado(s, #[trigger] contornos_refs(s)[a]),
{
    lema_contornos_props(s, Seq::new(s.len(), |i: int| false), 0);
}

/// Ningún segmento aparece en dos contornos, ni dos veces en el mismo: fuera
/// del primer punto (que comparte segmento con el segundo), cada punto viene de
/// un segmento distinto.
pub proof fn ley_segmentos_usados_una_vez<P>(s: Seq<Segmento<P>>)
    requires
        s.len() <= usize::MAX,
    ensures
        forall|a: int| 0 <= a < contornos_refs(s).len() ==>
            (#[trigger] contornos_refs(s)[a])[0].0 == contornos_refs(s)[a][1].0,
        forall|a1: int, b1: int, a2: int, b2: int|
            0 <= a1 < contornos_refs(s).len() && 1 <= b1 < contornos_refs(s)[a1].len()
            && 0 <= a2 < contornos_refs(s).len() && 1 <= b2 < contornos_refs(s)[a2].len()
            && (a1 != a2 || b1 != b2) ==>
            (#[trigger] contornos_refs(s)[a1][b1]).0 != (#[trigger] contornos_refs(s)[a2][b2]).0,
{
    lema_contornos_props(s, Seq::new(s.len(), |i: int| false), 0);
}

/// Si ningún segmento es degenerado, ningún contorno repite al final la celda
/// de su primer punto.
pub proof fn ley_cierre_no_duplicado<P>(s: Seq<Segmento<P>>)
    requires
        s.len() <= usize::MAX,
        sin_degenerados(s),
    ensures
        forall|a: int| 0 <= a < contornos_refs(s).len() ==>
            clave_de(s, (#[trigger] contornos_refs(s)[a])[0]) != clave_de(s, contornos_refs(s)[a].last()),
{
    lema_contornos_props(s, Seq::new(s.len(), |i: int| false), 0);
}

// ── Polígonos cerrados ───────────────────────────────────────────────────────

/// Cada celda de grilla que aparece en la entrada es extremo de exactamente
/// dos segmentos (como en el corte de una malla cerrada).
pub open spec fn dos_por_celda<P>(s: Seq<Segmento<P>>) -> bool {
    forall|r: Ref| ref_valida(s, r) ==> #[trigger] lista(s, clave_de(s, r)).len() == 2
}

/// El contorno cierra: un segmento de la entrada une la celda de su último
/// punto con la de su primer punto.
pub open spec fn cierra<P>(s: Seq<Segmento<P>>, c: Seq<Ref>) -> bool {
    exists|r: Ref| ref_valida(s, r) && #[trigger] enlazados(s, c.last(), r) && clave_de(s, r) == clave_de(s, c[0])
}

spec fn lineal(r: Ref) -> int {
    2 * r.0 + r.1
}

proof fn lema_apariciones_orden<P>(s: Seq<Segmento<P>>, k: (i64, i64), t: nat)
    requires
        t <= 2 * s.len(),
        s.len() <= usize::MAX,
    ensures
        forall|a: int, b: int| 0 <= a < b < apariciones(s, k, t).len() ==>
            lineal(#[trigger] apariciones(s, k, t)[a]) < lineal(#[trigger] apariciones(s, k, t)[b]),
    decreases t,
{
    if t > 0 {
        lema_apariciones_orden(s, k, (t - 1) as nat);
        lema_apariciones(s, k, (t - 1) as nat);
        let prev = apariciones(s, k, (t - 1) as nat);
        let l = apariciones(s, k, t);
        let q = (t - 1) / 2;
        let m = (t - 1) % 2;
        assert(2 * q + m == t - 1 && 0 <= m < 2);
        assert(lineal(ref_lineal(t - 1)) == t - 1);
        assert forall|a: int, b: int| 0 <= a < b < l.len() implies lineal(#[trigger] l[a]) < lineal(#[trigger] l[b]) by {
            assert(l[a] == prev[a]);
            if b < prev.len() {
                assert(l[b] == prev[b]);
            } else {
                assert(l[b] == ref_lineal(t - 1));
            }
        }
    }
}

proof fn lema_apariciones_completa<P>(s: Seq<Segmento<P>>, k: (i64, i64), t: nat, r: Ref)
    requires
        t <= 2 * s.len(),
        s.len() <= usize::MAX,
        r.1 < 2,
        lineal(r) < t,
        clave_de(s, r) == k,
    ensures
        apariciones(s, k, t).contains(r),
    decreases t,
{
    let prev = apariciones(s, k, (t - 1) as nat);
    let l = apariciones(s, k, t);
    if lineal(r) == t - 1 {
        assert((2 * r.0 + r.1) / 2 == r.0 && (2 * r.0 + r.1) % 2 == r.1);
        assert(ref_lineal(t - 1) == r);
        assert(l == prev.push(r));
        assert(l[l.len() - 1] == r);
    } else {
        lema_apariciones_completa(s, k, (t - 1) as nat, r);
        let j = choose|j: int| 0 <= j < prev.len() && prev[j] == r;
        assert(l[j] == prev[j]);
    }
}

/// Con dos extremos por celda y sin segmentos degenerados, la lista de la
/// celda de `r` tiene a `r` y a un extremo de otro segmento.
proof fn lema_lista_dos<P>(s: Seq<Segmento<P>>, r: Ref)
    requires
        s.len() <= usize::MAX,
        sin_degenerados(s),
        dos_por_celda(s),
        ref_valida(s, r),
    ensures
        ({
            let l = lista(s, clave_de(s, r));
            &&& l.len() == 2
            &&& ref_valida(s, l[0]) && ref_valida(s, l[1])
            &&& clave_de(s, l[0]) == clave_de(s, r) && clave_de(s, l[1]) == clave_de(s, r)
            &&& l[0].0 != l[1].0
            &&& (l[0] == r || l[1] == r)
        }),
{
    let k = clave_de(s, r);
    let l = lista(s, k);
    assert(l.len() == 2);
    lema_lista_valida(s, k);
    lema_apariciones_orden(s, k, (2 * s.len()) as nat);
    lema_apariciones_completa(s, k, (2 * s.len()) as nat, r);
    assert(ref_valida(s, l[0]) && clave_de(s, l[0]) == k);
    assert(ref_valida(s, l[1]) && clave_de(s, l[1]) == k);
    assert(lineal(l[0]) < lineal(l[1]));
    if l[0].0 == l[1].0 {
        let x = l[0].0 as int;
        assert(l[0].1 != l[1].1);
        assert(s[x].a.clave != s[x].b.clave);
    }
    let j = choose|j: int| 0 <= j < l.len() && l[j] == r;
}

/// El otro extremo de la lista de dos, distinto de `r`.
spec fn otro(l: Seq<Ref>, r: Ref) -> Ref {
    if l[0] == r { l[1] } else { l[0] }
}

/// Los dos segmentos de la celda `k` están ambos usados o ambos libres.
spec fn equilibrada<P>(s: Seq<Segmento<P>>, u: Seq<bool>, k: (i64, i64)) -> bool {
    u[lista(s, k)[0].0 as int] == u[lista(s, k)[1].0 as int]
}

spec fn todas_equilibradas<P>(s: Seq<Segmento<P>>, u: Seq<bool>) -> bool {
    forall|r: Ref| ref_valida(s, r) ==> #[trigger] equilibrada(s, u, clave_de(s, r))
}

/// Estado de una caminata que arrancó en el segmento `i` y está en `ext`.
spec fn inv_caminata<P>(s: Seq<Segmento<P>>, u: Seq<bool>, ext: Ref, i: usize) -> bool {
    let k0 = clave_de(s, (i, 0usize));
    let k = clave_de(s, ext);
    &&& u.len() == s.len()
    &&& ref_valida(s, ext) && i < s.len()
    &&& u[ext.0 as int] && u[i as int]
    &&& forall|r: Ref| ref_valida(s, r) && clave_de(s, r) != k0 && clave_de(s, r) != k
            ==> #[trigger] equilibrada(s, u, clave_de(s, r))
    &&& k != k0 ==> !u[otro(lista(s, k), ext).0 as int]
    &&& k == k0 ==> ext.0 != i
}

/// Marcar el segmento `x` no cambia el equilibrio de una celda que no es
/// extremo de `x`.
proof fn lema_equilibrio_marcar<P>(s: Seq<Segmento<P>>, u: Seq<bool>, x: int, r: Ref)
    requires
        s.len() <= usize::MAX,
        sin_degenerados(s),
        dos_por_celda(s),
        u.len() == s.len(),
        0 <= x < s.len(),
        ref_valida(s, r),
        clave_de(s, r) != s[x].a.clave,
        clave_de(s, r) != s[x].b.clave,
        equilibrada(s, u, clave_de(s, r)),
    ensures
        equilibrada(s, u.update(x, true), clave_de(s, r)),
{
    lema_lista_dos(s, r);
    let l = lista(s, clave_de(s, r));
    assert(l[0].0 != x) by {
        if l[0].0 == x {
            assert(clave_de(s, l[0]) == s[x].a.clave || clave_de(s, l[0]) == s[x].b.clave);
        }
    }
    assert(l[1].0 != x) by {
        if l[1].0 == x {
            assert(clave_de(s, l[1]) == s[x].a.clave || clave_de(s, l[1]) == s[x].b.clave);
        }
    }
}

/// Un paso de la caminata lejos de la celda de partida: el único otro
/// segmento de la celda está libre, se toma, y el estado sigue valiendo.
proof fn lema_paso<P>(s: Seq<Segmento<P>>, u: Seq<bool>, ext: Ref, i: usize)
    requires
        s.len() <= usize::MAX,
        sin_degenerados(s),
        dos_por_celda(s),
        inv_caminata(s, u, ext, i),
        clave_de(s, ext) != clave_de(s, (i, 0usize)),
    ensures
        ({
            let l = lista(s, clave_de(s, ext));
            let o = otro(l, ext);
            &&& primer_libre(l, u, 0) == Some(o)
            &&& ref_valida(s, o) && clave_de(s, o) == clave_de(s, ext)
            &&& o.0 < u.len() && !u[o.0 as int] && o.0 != ext.0
            &&& inv_caminata(s, u.update(o.0 as int, true), (o.0, (1 - o.1) as usize), i)
        }),
{
    let k0 = clave_de(s, (i, 0usize));
    let k = clave_de(s, ext);
    let l = lista(s, k);
    lema_lista_dos(s, ext);
    let o = otro(l, ext);
    assert(!u[o.0 as int]);
    if l[0] == ext {
        assert(primer_libre(l, u, 1) == Some(l[1]));
        assert(primer_libre(l, u, 0) == Some(o));
    } else {
        assert(primer_libre(l, u, 0) == Some(o));
    }
    let u2 = u.update(o.0 as int, true);
    let ext2 = (o.0, (1 - o.1) as usize);
    let k2 = clave_de(s, ext2);
    assert(s[o.0 as int].a.clave != s[o.0 as int].b.clave);
    assert(k2 != k);
    assert(o.0 != ext.0);
    // Equilibrio fuera de k0 y k2.
    assert forall|r: Ref| ref_valida(s, r) && clave_de(s, r) != k0 && clave_de(s, r) != k2
        implies #[trigger] equilibrada(s, u2, clave_de(s, r)) by {
        if clave_de(s, r) == k {
            assert(l[0].0 == ext.0 || l[0].0 == o.0);
            assert(l[1].0 == ext.0 || l[1].0 == o.0);
        } else {
            assert(equilibrada(s, u, clave_de(s, r)));
            assert(clave_de(s, o) == k);
            assert(s[o.0 as int].a.clave == k || s[o.0 as int].a.clave == k2);
            assert(s[o.0 as int].b.clave == k || s[o.0 as int].b.clave == k2);
            lema_equilibrio_marcar(s, u, o.0 as int, r);
        }
    }
    if k2 != k0 {
        lema_lista_dos(s, ext2);
        let l2 = lista(s, k2);
        assert(equilibrada(s, u, clave_de(s, ext2)));
        assert(l2[0].0 == o.0 || l2[1].0 == o.0);
        assert(otro(l2, ext2).0 != o.0);
    }
    assert(inv_caminata(s, u2, ext2, i));
}

proof fn lema_caminar_cierra<P>(s: Seq<Segmento<P>>, u: Seq<bool>, ext: Ref, i: usize)
    requires
        s.len() <= usize::MAX,
        sin_degenerados(s),
        dos_por_celda(s),
        inv_caminata(s, u, ext, i),
    ensures
        clave_de(s, caminar(s, u, ext).0.last()) == clave_de(s, (i, 0usize)),
        todas_equilibradas(s, caminar(s, u, ext).1),
    decreases libres(u),
{
    let k0 = clave_de(s, (i, 0usize));
    let k = clave_de(s, ext);
    let l = lista(s, k);
    lema_lista_dos(s, ext);
    if k != k0 {
        lema_paso(s, u, ext, i);
        let o = otro(l, ext);
        let u2 = u.update(o.0 as int, true);
        let ext2 = (o.0, (1 - o.1) as usize);
        lema_libres_marcar(u, o.0 as int);
        lema_caminar_cierra(s, u2, ext2, i);
        lema_caminar_largo(s, u2, ext2);
        let (resto, u3) = caminar(s, u2, ext2);
        assert(caminar(s, u, ext) == (seq![ext] + resto, u3));
        assert((seq![ext] + resto).last() == resto.last());
    } else {
        lema_lista_dos(s, (i, 0usize));
        assert(ext != (i, 0usize));
        assert(u[l[0].0 as int] && u[l[1].0 as int]);
        assert(primer_libre(l, u, 2) is None);
        assert(primer_libre(l, u, 1) is None);
        assert(primer_libre(l, u, 0) is None);
        assert(caminar(s, u, ext) == (seq![ext], u));
        assert forall|r: Ref| ref_valida(s, r) implies #[trigger] equilibrada(s, u, clave_de(s, r)) by {
            if clave_de(s, r) == k0 {
                assert(equilibrada(s, u, k0));
            }
        }
    }
}

/// Al arrancar la cadena del segmento libre `i` con todas las celdas
/// equilibradas, vale el estado de la caminata.
proof fn lema_inicio<P>(s: Seq<Segmento<P>>, u: Seq<bool>, i: usize)
    requires
        s.len() <= usize::MAX,
        sin_degenerados(s),
        dos_por_celda(s),
        u.len() == s.len(),
        i < s.len(),
        !u[i as int],
        todas_equilibradas(s, u),
    ensures
        inv_caminata(s, u.update(i as int, true), (i, 1usize), i),
        clave_de(s, (i, 1usize)) != clave_de(s, (i, 0usize)),
{
    let u1 = u.update(i as int, true);
    let ext = (i, 1usize);
    let k0 = clave_de(s, (i, 0usize));
    let k1 = clave_de(s, ext);
    assert(s[i as int].a.clave != s[i as int].b.clave);
    assert forall|r: Ref| ref_valida(s, r) && clave_de(s, r) != k0 && clave_de(s, r) != k1
        implies #[trigger] equilibrada(s, u1, clave_de(s, r)) by {
        assert(equilibrada(s, u, clave_de(s, r)));
        lema_equilibrio_marcar(s, u, i as int, r);
    }
    lema_lista_dos(s, ext);
    let l1 = lista(s, k1);
    assert(equilibrada(s, u, clave_de(s, ext)));
    assert(l1[0].0 == i || l1[1].0 == i);
    assert(otro(l1, ext).0 != i);
}

proof fn lema_cadena_cierra<P>(s: Seq<Segmento<P>>, u: Seq<bool>, i: usize)
    requires
        s.len() <= usize::MAX,
        sin_degenerados(s),
        dos_por_celda(s),
        u.len() == s.len(),
        i < s.len(),
        !u[i as int],
        todas_equilibradas(s, u),
    ensures
        cierra(s, cadena_desde(s, u, i).0),
        todas_equilibradas(s, cadena_desde(s, u, i).1),
{
    let u1 = u.update(i as int, true);
    let ext = (i, 1usize);
    lema_inicio(s, u, i);
    lema_caminar_cierra(s, u1, ext, i);
    lema_caminar_largo(s, u1, ext);
    lema_caminar_props(s, u1, ext);
    lema_caminar_valido(s, u1, ext);
    let (cam, u2) = caminar(s, u1, ext);
    let c = seq![(i, 0usize)] + cam;
    assert(c.last() == cam.last());
    assert(clave_de(s, c[0]) == clave_de(s, c.last()));
    let d = c.drop_last();
    assert(cadena_desde(s, u, i).0 == d);
    let n = c.len();
    assert(n >= 2);
    let r = c[n - 1];
    assert(ref_valida(s, r)) by {
        assert(r == cam[cam.len() - 1]);
    }
    assert(enlazados(s, c[n - 2], r)) by {
        if n - 2 > 0 {
            assert(c[n - 2] == cam[n - 3] && r == cam[n - 2]);
        }
    }
    assert(d.last() == c[n - 2] && d[0] == c[0]);
    assert(enlazados(s, d.last(), r) && clave_de(s, r) == clave_de(s, d[0]));
}

proof fn lema_contornos_cierran<P>(s: Seq<Segmento<P>>, u: Seq<bool>, i: int)
    requires
        s.len() <= usize::MAX,
        sin_degenerados(s),
        dos_por_celda(s),
        u.len() == s.len(),
        todas_equilibradas(s, u),
    ensures
        forall|a: int| 0 <= a < contornos_desde(s, u, i).len() ==> cierra(s, #[trigger] contornos_desde(s, u, i)[a]),
    decreases s.len() - i,
{
    if 0 <= i < s.len() {
        if u[i] {
            lema_contornos_cierran(s, u, i + 1);
            assert(contornos_desde(s, u, i) == contornos_desde(s, u, i + 1));
        } else {
            let (c, u2) = cadena_desde(s, u, i as usize);
            lema_cadena_cierra(s, u, i as usize);
            lema_caminar_largo(s, u.update(i, true), (i as usize, 1usize));
            lema_contornos_cierran(s, u2, i + 1);
            let resto = contornos_desde(s, u2, i + 1);
            if c.len() >= 3 {
                let cs = seq![c] + resto;
                assert(contornos_desde(s, u, i) == cs);
                assert forall|a: int| 0 <= a < cs.len() implies cierra(s, #[trigger] cs[a]) by {
                    if a > 0 {
                        assert(cs[a] == resto[a - 1]);
                    }
                }
            } else {
                assert(contornos_desde(s, u, i) == resto);
            }
        }
    }
}

/// Si cada celda es extremo de exactamente dos segmentos (sin segmentos
/// degenerados), todo contorno devuelto es un polígono cerrado: un segmento
/// une su último punto con el primero.
pub proof fn ley_contornos_cerrados<P>(s: Seq<Segmento<P>>)
    requires
        s.len() <= usize::MAX,
        sin_degenerados(s),
        dos_por_celda(s),
    ensures
        forall|a: int| 0 <= a < contornos_refs(s).len() ==> cierra(s, #[trigger] contornos_refs(s)[a]),
{
    let u = Seq::new(s.len(), |i: int| false);
    assert forall|r: Ref| ref_valida(s, r) implies #[trigger] equilibrada(s, u, clave_de(s, r)) by {
        lema_lista_dos(s, r);
    }
    lema_contornos_cierran(s, u, 0);
}


/// Los segmentos `x` e `y` unen las mismas dos celdas.
pub open spec fn mismas_celdas<P>(x: Segmento<P>, y: Segmento<P>) -> bool {
    (x.a.clave == y.a.clave && x.b.clave == y.b.clave) || (x.a.clave == y.b.clave && x.b.clave == y.a.clave)
}

/// No hay dos segmentos distintos entre las mismas dos celdas.
pub open spec fn sin_pares_repetidos<P>(s: Seq<Segmento<P>>) -> bool {
    forall|x: int, y: int| #![trigger s[x], s[y]] 0 <= x < s.len() && 0 <= y < s.len() && x != y ==> !mismas_celdas(s[x], s[y])
}

/// Cantidad total de puntos de una lista de contornos.
pub open spec fn total_puntos<T>(cs: Seq<Seq<T>>) -> nat
    decreases cs.len(),
{
    if cs.len() == 0 {
        0
    } else {
        cs[0].len() + total_puntos(cs.drop_first())
    }
}

proof fn lema_caminar_cuenta<P>(s: Seq<Segmento<P>>, u: Seq<bool>, ext: Ref)
    ensures
        caminar(s, u, ext).0.len() + libres(caminar(s, u, ext).1) == libres(u) + 1,
    decreases libres(u),
{
    match primer_libre(lista(s, clave_de(s, ext)), u, 0) {
        Some(r) => {
            if r.0 < u.len() && !u[r.0 as int] {
                lema_libres_marcar(u, r.0 as int);
                lema_caminar_cuenta(s, u.update(r.0 as int, true), (r.0, (1 - r.1) as usize));
            }
        },
        None => {},
    }
}

proof fn lema_libres_cero(u: Seq<bool>)
    requires
        forall|j: int| 0 <= j < u.len() ==> u[j],
    ensures
        libres(u) == 0,
    decreases u.len(),
{
    if u.len() > 0 {
        lema_libres_cero(u.drop_last());
        assert(u.last() == u[u.len() - 1]);
    }
}

proof fn lema_libres_todos(n: nat)
    ensures
        libres(Seq::new(n, |i: int| false)) == n,
    decreases n,
{
    if n > 0 {
        assert(Seq::new(n, |i: int| false).drop_last() =~= Seq::new((n - 1) as nat, |i: int| false));
        lema_libres_todos((n - 1) as nat);
    }
}

/// Sin pares repetidos, la cadena que arranca en `i` tiene al menos 3
/// puntos, tantos como segmentos marca.
proof fn lema_cadena_larga<P>(s: Seq<Segmento<P>>, u: Seq<bool>, i: usize)
    requires
        s.len() <= usize::MAX,
        sin_degenerados(s),
        dos_por_celda(s),
        sin_pares_repetidos(s),
        u.len() == s.len(),
        i < s.len(),
        !u[i as int],
        todas_equilibradas(s, u),
    ensures
        cadena_desde(s, u, i).0.len() >= 3,
        cadena_desde(s, u, i).0.len() + libres(cadena_desde(s, u, i).1) == libres(u),
{
    let u1 = u.update(i as int, true);
    let ext = (i, 1usize);
    let k0 = clave_de(s, (i, 0usize));
    let k1 = clave_de(s, ext);
    lema_inicio(s, u, i);
    lema_caminar_cierra(s, u1, ext, i);
    lema_caminar_cuenta(s, u1, ext);
    lema_libres_marcar(u, i as int);
    // Primer paso: el otro segmento de la celda k1.
    lema_paso(s, u1, ext, i);
    let l1 = lista(s, k1);
    let o = otro(l1, ext);
    let u2 = u1.update(o.0 as int, true);
    let ext2 = (o.0, (1 - o.1) as usize);
    let k2 = clave_de(s, ext2);
    lema_libres_marcar(u1, o.0 as int);
    // El segundo segmento no vuelve a la celda de partida.
    assert(k2 != k0) by {
        if k2 == k0 {
            assert(o.0 != i);
            assert(mismas_celdas(s[i as int], s[o.0 as int]));
        }
    }
    lema_paso(s, u2, ext2, i);
    let l2 = lista(s, k2);
    let o2 = otro(l2, ext2);
    let u3 = u2.update(o2.0 as int, true);
    let ext3 = (o2.0, (1 - o2.1) as usize);
    lema_libres_marcar(u2, o2.0 as int);
    lema_caminar_largo(s, u3, ext3);
    let resto3 = caminar(s, u3, ext3).0;
    assert(caminar(s, u2, ext2).0 == seq![ext2] + resto3);
    assert(caminar(s, u1, ext).0 == seq![ext] + caminar(s, u2, ext2).0);
    let (cam, uf) = caminar(s, u1, ext);
    assert(cam.len() >= 3);
    let c = seq![(i, 0usize)] + cam;
    assert(c.last() == cam.last());
    assert(cadena_desde(s, u, i).0 == c.drop_last());
}

proof fn lema_contornos_total<P>(s: Seq<Segmento<P>>, u: Seq<bool>, i: int)
    requires
        s.len() <= usize::MAX,
        sin_degenerados(s),
        dos_por_celda(s),
        sin_pares_repetidos(s),
        u.len() == s.len(),
        todas_equilibradas(s, u),
        0 <= i <= s.len(),
        forall|j: int| 0 <= j < i ==> u[j],
    ensures
        total_puntos(contornos_desde(s, u, i)) == libres(u),
    decreases s.len() - i,
{
    if i == s.len() {
        lema_libres_cero(u);
    } else if u[i] {
        lema_contornos_total(s, u, i + 1);
        assert(contornos_desde(s, u, i) == contornos_desde(s, u, i + 1));
    } else {
        let (c, u2) = cadena_desde(s, u, i as usize);
        lema_cadena_cierra(s, u, i as usize);
        lema_cadena_props(s, u, i as usize);
        lema_cadena_larga(s, u, i as usize);
        assert(u2[i]) by {
            assert(c[0].0 == i);
        }
        assert forall|j: int| 0 <= j < i + 1 implies u2[j] by {
            if j < i {
                assert(u[j]);
            }
        }
        lema_contornos_total(s, u2, i + 1);
        let resto = contornos_desde(s, u2, i + 1);
        let cs = seq![c] + resto;
        assert(contornos_desde(s, u, i) == cs);
        assert(cs.drop_first() =~= resto);
        assert(cs[0] == c);
    }
}

/// Si cada celda es extremo de exactamente dos segmentos, sin segmentos
/// degenerados ni dos segmentos entre las mismas celdas, no se pierde ningún
/// segmento: los contornos tienen, en total, tantos puntos como segmentos
/// hay (cada polígono cerrado aporta un punto por lado).
pub proof fn ley_contornos_sin_perdida<P>(s: Seq<Segmento<P>>)
    requires
        s.len() <= usize::MAX,
        sin_degenerados(s),
        dos_por_celda(s),
        sin_pares_repetidos(s),
    ensures
        total_puntos(contornos_refs(s)) == s.len(),
        total_puntos(contornos_spec(s)) == s.len(),
{
    let u = Seq::new(s.len(), |i: int| false);
    assert forall|r: Ref| ref_valida(s, r) implies #[trigger] equilibrada(s, u, clave_de(s, r)) by {
        lema_lista_dos(s, r);
    }
    lema_libres_todos(s.len());
    lema_contornos_total(s, u, 0);
    lema_total_igual(s, contornos_refs(s));
}

proof fn lema_total_igual<P>(s: Seq<Segmento<P>>, cs: Seq<Seq<Ref>>)
    ensures
        total_puntos(cs.map_values(|c: Seq<Ref>| c.map_values(|r: Ref| punto_de(s, r)))) == total_puntos(cs),
    decreases cs.len(),
{
    let m = cs.map_values(|c: Seq<Ref>| c.map_values(|r: Ref| punto_de(s, r)));
    if cs.len() > 0 {
        lema_total_igual(s, cs.drop_first());
        assert(m.drop_first() =~= cs.drop_first().map_values(|c: Seq<Ref>| c.map_values(|r: Ref| punto_de(s, r))));
        assert(m[0].len() == cs[0].len());
    }
}

} // verus!
