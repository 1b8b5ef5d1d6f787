use condorlab::contorno::{construir_contornos, Extremo, Segmento};

const SNAP_MM: f32 = 0.001;

fn snap(p: [f32; 2]) -> (i64, i64) {
    ((p[0] / SNAP_MM).round() as i64, (p[1] / SNAP_MM).round() as i64)
}

fn extremo(x: f32, y: f32) -> Extremo<[f32; 2]> {
    Extremo { punto: [x, y], clave: snap([x, y]) }
}

fn seg(x0: f32, y0: f32, x1: f32, y1: f32) -> Segmento<[f32; 2]> {
    Segmento { a: extremo(x0, y0), b: extremo(x1, y1) }
}

#[test]
fn sin_segmentos_devuelve_vacio() {
    assert!(construir_contornos::<[f32; 2]>(&vec![]).is_empty());
}

#[test]
fn tres_segmentos_forman_triangulo_cerrado() {
    let segs = vec![
        seg(0.0, 0.0, 1.0, 0.0),
        seg(1.0, 0.0, 0.5, 1.0),
        seg(0.5, 1.0, 0.0, 0.0),
    ];
    let cs = construir_contornos(&segs);
    assert_eq!(cs.len(), 1, "Debe haber 1 contorno");
    assert_eq!(cs[0].len(), 3, "El triángulo debe tener 3 puntos");
}

#[test]
fn cuatro_segmentos_forman_cuadrado_cerrado() {
    let segs = vec![
        seg(0.0, 0.0, 1.0, 0.0),
        seg(1.0, 0.0, 1.0, 1.0),
        seg(1.0, 1.0, 0.0, 1.0),
        seg(0.0, 1.0, 0.0, 0.0),
    ];
    let cs = construir_contornos(&segs);
    assert_eq!(cs.len(), 1);
    assert_eq!(cs[0].len(), 4);
}

#[test]
fn dos_triangulos_separados_forman_dos_contornos() {
    let segs = vec![
        seg(0.0, 0.0, 1.0, 0.0),
        seg(1.0, 0.0, 0.5, 1.0),
        seg(0.5, 1.0, 0.0, 0.0),
        seg(10.0, 10.0, 11.0, 10.0),
        seg(11.0, 10.0, 10.5, 11.0),
        seg(10.5, 11.0, 10.0, 10.0),
    ];
    let cs = construir_contornos(&segs);
    assert_eq!(cs.len(), 2, "Deben haber 2 contornos separados");
}

#[test]
fn segmentos_invertidos_forman_contorno_correcto() {
    let segs = vec![
        seg(0.0, 0.0, 1.0, 0.0),
        seg(1.0, 1.0, 1.0, 0.0),
        seg(1.0, 1.0, 0.0, 1.0),
        seg(0.0, 0.0, 0.0, 1.0),
    ];
    let cs = construir_contornos(&segs);
    assert_eq!(cs.len(), 1, "Debe haber 1 contorno aunque los segmentos estén invertidos");
    assert_eq!(cs[0].len(), 4);
}

#[test]
fn contorno_no_duplica_punto_de_cierre() {
    let segs = vec![
        seg(0.0, 0.0, 1.0, 0.0),
        seg(1.0, 0.0, 0.5, 1.0),
        seg(0.5, 1.0, 0.0, 0.0),
    ];
    let cs = construir_contornos(&segs);
    let c = &cs[0];
    assert_ne!(
        snap(*c.first().unwrap()),
        snap(*c.last().unwrap()),
        "El primer y último punto no deben ser duplicados"
    );
}

#[test]
fn contorno_sigue_el_orden_de_la_cadena() {
    // Cuadrado con un segmento invertido: la cadena sale del extremo 0 del
    // primero y recorre los demás atravesando cada uno.
    let segs = vec![
        seg(0.0, 0.0, 1.0, 0.0),
        seg(1.0, 1.0, 1.0, 0.0),
        seg(1.0, 1.0, 0.0, 1.0),
        seg(0.0, 0.0, 0.0, 1.0),
    ];
    let cs = construir_contornos(&segs);
    assert_eq!(cs, vec![vec![[0.0, 0.0], [1.0, 0.0], [1.0, 1.0], [0.0, 1.0]]]);
}

#[test]
fn cadena_abierta_de_tres_puntos_se_conserva() {
    // Dos segmentos que no cierran: 3 puntos, sin descartar el último.
    let segs = vec![seg(0.0, 0.0, 1.0, 0.0), seg(1.0, 0.0, 2.0, 1.0)];
    let cs = construir_contornos(&segs);
    assert_eq!(cs, vec![vec![[0.0, 0.0], [1.0, 0.0], [2.0, 1.0]]]);
}

#[test]
fn segmento_suelto_no_forma_contorno() {
    let segs = vec![seg(0.0, 0.0, 1.0, 0.0)];
    assert!(construir_contornos(&segs).is_empty());
}

#[test]
fn puntos_dentro_de_la_misma_celda_se_unen() {
    // Diferencias por debajo de la grilla de 1 µm cuentan como el mismo punto.
    let segs = vec![
        seg(0.0, 0.0, 1.0, 0.0),
        seg(1.0000001, 0.0, 0.5, 1.0),
        seg(0.5, 1.0000001, 0.0, 0.0),
    ];
    let cs = construir_contornos(&segs);
    assert_eq!(cs.len(), 1);
    assert_eq!(cs[0].len(), 3);
}

#[test]
fn triangulos_con_vertice_comun_forman_una_cadena() {
    // Dos triángulos que comparten un vértice: la cadena pasa por el vértice
    // común y sigue por el segundo; cada segmento se recorre una sola vez.
    let segs = vec![
        seg(0.0, 0.0, 1.0, 0.0),
        seg(1.0, 0.0, 0.5, 1.0),
        seg(0.5, 1.0, 0.0, 0.0),
        seg(0.0, 0.0, -1.0, 0.0),
        seg(-1.0, 0.0, -0.5, 1.0),
        seg(-0.5, 1.0, 0.0, 0.0),
    ];
    let cs = construir_contornos(&segs);
    assert_eq!(
        cs,
        vec![vec![[0.0, 0.0], [1.0, 0.0], [0.5, 1.0], [0.0, 0.0], [-1.0, 0.0], [-0.5, 1.0]]]
    );
}

#[test]
fn poligono_desordenado_no_pierde_segmentos_y_cierra() {
    // Hexágono con los segmentos mezclados y algunos invertidos.
    let p = [(0.0, 0.0), (2.0, 0.0), (3.0, 1.0), (2.0, 2.0), (0.0, 2.0), (-1.0, 1.0)];
    let lado = |i: usize, inv: bool| {
        let (a, b) = (p[i], p[(i + 1) % 6]);
        if inv { seg(b.0, b.1, a.0, a.1) } else { seg(a.0, a.1, b.0, b.1) }
    };
    let segs = vec![lado(3, false), lado(0, true), lado(5, false), lado(1, true), lado(4, false), lado(2, true)];
    let cs = construir_contornos(&segs);
    let total: usize = cs.iter().map(|c| c.len()).sum();
    assert_eq!(total, segs.len());
    assert_eq!(cs.len(), 1);
    // Un segmento de la entrada une el último punto con el primero.
    let (primero, ultimo) = (snap(cs[0][0]), snap(*cs[0].last().unwrap()));
    assert!(segs.iter().any(|s| (s.a.clave == ultimo && s.b.clave == primero) || (s.b.clave == ultimo && s.a.clave == primero)));
}
