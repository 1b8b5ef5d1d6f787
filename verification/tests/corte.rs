use condorlab::corte::{cruce_triangulo, Lado};

const EPS: f32 = 1e-4;

fn lado(d: f32) -> Lado {
    if d < 0.0 {
        Lado::Debajo
    } else if d > 0.0 {
        Lado::Encima
    } else {
        Lado::EnPlano
    }
}

/// Corte de un triángulo con el plano `z`: la biblioteca decide qué aristas
/// cruzan; aquí sólo se interpola sobre ellas.
fn intersectar_triangulo(tri: &[[f32; 3]; 3], z: f32) -> Option<[[f32; 2]; 2]> {
    let d = [tri[0][2] - z, tri[1][2] - z, tri[2][2] - z];
    let (e0, e1) = cruce_triangulo(lado(d[0]), lado(d[1]), lado(d[2]))?;
    let punto = |e: usize| {
        let (a, b) = (e, (e + 1) % 3);
        let t = d[a] / (d[a] - d[b]);
        [
            tri[a][0] + t * (tri[b][0] - tri[a][0]),
            tri[a][1] + t * (tri[b][1] - tri[a][1]),
        ]
    };
    Some([punto(e0), punto(e1)])
}

fn cortar_capa(tris: &[[[f32; 3]; 3]], z: f32) -> Vec<[[f32; 2]; 2]> {
    tris.iter().filter_map(|t| intersectar_triangulo(t, z)).collect()
}

fn approx_eq(a: f32, b: f32) -> bool {
    (a - b).abs() < EPS
}

fn pt_approx(p: [f32; 2], x: f32, y: f32) -> bool {
    approx_eq(p[0], x) && approx_eq(p[1], y)
}

#[test]
fn triangulo_cruza_plano_produce_segmento() {
    let tri = [[0.0, 0.0, 0.0], [1.0, 0.0, 1.0], [0.0, 1.0, 1.0]];
    assert!(intersectar_triangulo(&tri, 0.5).is_some());
}

#[test]
fn triangulo_sobre_plano_no_intersecta() {
    let tri = [[0.0, 0.0, 1.0], [1.0, 0.0, 2.0], [0.0, 1.0, 3.0]];
    assert!(intersectar_triangulo(&tri, 0.5).is_none());
}

#[test]
fn triangulo_bajo_plano_no_intersecta() {
    let tri = [[0.0, 0.0, -1.0], [1.0, 0.0, -0.5], [0.0, 1.0, -0.1]];
    assert!(intersectar_triangulo(&tri, 0.5).is_none());
}

#[test]
fn triangulo_coplanar_no_intersecta() {
    let tri = [[0.0, 0.0, 0.5], [1.0, 0.0, 0.5], [0.0, 1.0, 0.5]];
    assert!(intersectar_triangulo(&tri, 0.5).is_none());
}

#[test]
fn puntos_de_interseccion_son_correctos() {
    let tri = [[0.0_f32, 0.0, 0.0], [2.0, 0.0, 2.0], [0.0, 2.0, 2.0]];
    let seg = intersectar_triangulo(&tri, 1.0).expect("Debe intersectar");
    let pts = [seg[0], seg[1]];
    assert!(pts.iter().any(|&p| pt_approx(p, 1.0, 0.0)), "Falta punto (1.0, 0.0): {:?}", pts);
    assert!(pts.iter().any(|&p| pt_approx(p, 0.0, 1.0)), "Falta punto (0.0, 1.0): {:?}", pts);
}

#[test]
fn vertice_en_plano_con_los_otros_dos_debajo_no_intersecta() {
    let tri = [[0.5_f32, 0.0, 0.5], [1.0, 0.0, 0.0], [0.0, 1.0, 0.0]];
    assert!(intersectar_triangulo(&tri, 0.5).is_none());
}

#[test]
fn vertice_en_plano_con_otros_dos_en_lados_opuestos_produce_segmento() {
    let tri = [[0.0_f32, 0.0, 0.0], [1.0, 0.0, 1.0], [0.5, 0.5, 0.5]];
    assert!(intersectar_triangulo(&tri, 0.5).is_some());
}

#[test]
fn mesh_vacio_produce_cero_segmentos() {
    assert!(cortar_capa(&[], 0.5).is_empty());
}

#[test]
fn un_triangulo_que_cruza_produce_un_segmento() {
    let tri = [[0.0_f32, 0.0, 0.0], [1.0, 0.0, 1.0], [0.0, 1.0, 1.0]];
    assert_eq!(cortar_capa(&[tri], 0.5).len(), 1);
}

#[test]
fn triangulos_que_no_cruzan_producen_cero_segmentos() {
    let tris = [
        [[0.0_f32, 0.0, 1.0], [1.0, 0.0, 2.0], [0.0, 1.0, 3.0]],
        [[0.0_f32, 0.0, -1.0], [1.0, 0.0, -0.5], [0.0, 1.0, -0.1]],
    ];
    assert_eq!(cortar_capa(&tris, 0.5).len(), 0);
}

#[test]
fn cruce_elige_las_aristas_en_orden() {
    // v0 debajo, v1 y v2 encima: cruzan (v0,v1) y (v2,v0).
    assert_eq!(cruce_triangulo(Lado::Debajo, Lado::Encima, Lado::Encima), Some((0, 2)));
    // v1 debajo: cruzan (v0,v1) y (v1,v2).
    assert_eq!(cruce_triangulo(Lado::Encima, Lado::Debajo, Lado::Encima), Some((0, 1)));
    // v2 debajo: cruzan (v1,v2) y (v2,v0).
    assert_eq!(cruce_triangulo(Lado::Encima, Lado::Encima, Lado::Debajo), Some((1, 2)));
    // Un vértice en el plano y los otros a ambos lados.
    assert_eq!(cruce_triangulo(Lado::Debajo, Lado::Encima, Lado::EnPlano), Some((0, 2)));
}

#[test]
fn cruce_sin_vertices_a_ambos_lados_es_none() {
    assert_eq!(cruce_triangulo(Lado::EnPlano, Lado::EnPlano, Lado::EnPlano), None);
    assert_eq!(cruce_triangulo(Lado::Debajo, Lado::Debajo, Lado::EnPlano), None);
    assert_eq!(cruce_triangulo(Lado::Encima, Lado::EnPlano, Lado::Encima), None);
}
