//! Corte de un triángulo con un plano horizontal: qué aristas cruza.
//!
//! La distancia de cada vértice al plano se reduce a su lado del plano; con
//! eso se decide si el triángulo deja un segmento y entre qué aristas.

use vstd::prelude::*;

verus! {

/// Lado del plano en que está un vértice: distancia negativa, positiva o
/// ninguna de las dos (en el plano).
#[derive(Clone, Copy, PartialEq, Eq, Structural)]
pub enum Lado {
    Debajo,
    EnPlano,
    Encima,
}

/// La arista de extremos con lados `a` y `b` cruza el plano: exactamente uno
/// de sus extremos está debajo.
pub open spec fn cruza(a: Lado, b: Lado) -> bool {
    (a == Lado::Debajo) != (b == Lado::Debajo)
}

/// Aristas que cruzan el plano, en el orden (v0,v1) = 0, (v1,v2) = 1, (v2,v0) = 2.
pub open spec fn aristas_cruzadas(l0: Lado, l1: Lado, l2: Lado) -> Seq<usize> {
    (if cruza(l0, l1) { seq![0usize] } else { Seq::empty() }) + (if cruza(l1, l2) {
        seq![1usize]
    } else {
        Seq::empty()
    }) + (if cruza(l2, l0) { seq![2usize] } else { Seq::empty() })
}

/// Hay un vértice estrictamente de cada lado del plano.
pub open spec fn atraviesa(l0: Lado, l1: Lado, l2: Lado) -> bool {
    (l0 == Lado::Encima || l1 == Lado::Encima || l2 == Lado::Encima) && (l0 == Lado::Debajo || l1
        == Lado::Debajo || l2 == Lado::Debajo)
}

/// Qué aristas del triángulo dejan los dos puntos del segmento de corte.
pub open spec fn cruce_spec(l0: Lado, l1: Lado, l2: Lado) -> Option<(usize, usize)> {
    let es = aristas_cruzadas(l0, l1, l2);
    if !atraviesa(l0, l1, l2) {
        None
    } else if es.len() == 2 {
        Some((es[0], es[1]))
    } else {
        None
    }
}

/// Decide el corte de un triángulo cuyos vértices están en los lados dados:
/// `None` si no hay vértice a ambos lados del plano (o si no quedan
/// exactamente dos aristas cruzadas); si no, las dos aristas a interpolar.
pub fn cruce_triangulo(l0: Lado, l1: Lado, l2: Lado) -> (r: Option<(usize, usize)>)
    ensures
        r == cruce_spec(l0, l1, l2),
{
    let arriba = (l0 == Lado::Encima) as u8 + (l1 == Lado::Encima) as u8 + (l2 == Lado::Encima) as u8;
    let abajo = (l0 == Lado::Debajo) as u8 + (l1 == Lado::Debajo) as u8 + (l2 == Lado::Debajo) as u8;
    if arriba == 0 || abajo == 0 {
        return None;
    }
    let mut es: Vec<usize> = Vec::new();
    if (l0 == Lado::Debajo) != (l1 == Lado::Debajo) {
        es.push(0);
    }
    if (l1 == Lado::Debajo) != (l2 == Lado::Debajo) {
        es.push(1);
    }
    if (l2 == Lado::Debajo) != (l0 == Lado::Debajo) {
        es.push(2);
    }
    assert(es@ =~= aristas_cruzadas(l0, l1, l2));
    if es.len() == 2 {
        Some((es[0], es[1]))
    } else {
        None
    }
}

/// Un triángulo deja segmento de corte exactamente cuando tiene un vértice
/// estrictamente de cada lado del plano; entonces las dos aristas cruzadas son
/// distintas y en orden creciente.
pub proof fn ley_corte_sii_atraviesa(l0: Lado, l1: Lado, l2: Lado)
    ensures
        cruce_spec(l0, l1, l2) is Some <==> atraviesa(l0, l1, l2),
        cruce_spec(l0, l1, l2) matches Some((a, b)) ==> a < b <= 2,
{
}

/// Lado del vértice `i` (0, 1 o 2) de un triángulo con lados `l0`, `l1`, `l2`.
pub open spec fn lado_vertice(l0: Lado, l1: Lado, l2: Lado, i: int) -> Lado {
    if i == 0 {
        l0
    } else if i == 1 {
        l1
    } else {
        l2
    }
}

/// Las aristas que da el corte son justo las que cruzan el plano: la arista
/// `e` une los vértices `e` y `(e + 1) % 3`, y cada una de las dos devueltas
/// tiene exactamente un extremo debajo del plano; ninguna otra lo tiene.
pub proof fn ley_corte_aristas_cruzan(l0: Lado, l1: Lado, l2: Lado)
    ensures
        cruce_spec(l0, l1, l2) matches Some((a, b)) ==> {
            &&& a < 3 && b < 3 && a != b
            &&& (lado_vertice(l0, l1, l2, a as int) == Lado::Debajo) != (lado_vertice(
                l0,
                l1,
                l2,
                (a as int + 1) % 3,
            ) == Lado::Debajo)
            &&& (lado_vertice(l0, l1, l2, b as int) == Lado::Debajo) != (lado_vertice(
                l0,
                l1,
                l2,
                (b as int + 1) % 3,
            ) == Lado::Debajo)
            &&& forall|e: int|
                0 <= e < 3 && (lado_vertice(l0, l1, l2, e) == Lado::Debajo) != (#[trigger] lado_vertice(
                    l0,
                    l1,
                    l2,
                    (e + 1) % 3,
                ) == Lado::Debajo) ==> e == a || e == b
        },
{
    assert((0int + 1) % 3 == 1);
    assert((1int + 1) % 3 == 2);
    assert((2int + 1) % 3 == 0);
}

} // verus!
