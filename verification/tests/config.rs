use condorlab::config::{agregar_reciente, config_path, historial_path, AppConfig};

fn lista(v: &[&str]) -> Vec<String> {
    v.iter().map(|s| s.to_string()).collect()
}

#[test]
fn rutas_de_configuracion() {
    assert_eq!(config_path("/home/ana/.config/condorlab"), "/home/ana/.config/condorlab/config.json");
    assert_eq!(historial_path("/home/ana/.config/condorlab"), "/home/ana/.config/condorlab/historial.json");
}

#[test]
fn rutas_como_path_join() {
    for dir in ["/tmp/x", "/tmp/x/", "", "rel"] {
        let esperado = std::path::Path::new(dir).join("config.json");
        assert_eq!(config_path(dir), esperado.to_str().unwrap());
    }
}

#[test]
fn configuracion_por_defecto() {
    let c = AppConfig::default();
    assert!(c.valores.is_empty());
    assert_eq!(c.perfil_idx, 0);
    assert_eq!(c.material_idx, 0);
    assert!(c.recientes.is_empty());
}

#[test]
fn reciente_nuevo_va_primero() {
    let mut r = lista(&["b.stl", "c.gcode"]);
    agregar_reciente(&mut r, "a.stl");
    assert_eq!(r, lista(&["a.stl", "b.stl", "c.gcode"]));
}

#[test]
fn reciente_repetido_sube_sin_duplicarse() {
    let mut r = lista(&["a.stl", "b.stl", "c.gcode"]);
    agregar_reciente(&mut r, "c.gcode");
    assert_eq!(r, lista(&["c.gcode", "a.stl", "b.stl"]));
}

#[test]
fn recientes_se_cortan_en_diez() {
    let mut r: Vec<String> = (0..10).map(|i| format!("{i}.stl")).collect();
    agregar_reciente(&mut r, "nuevo.stl");
    assert_eq!(r.len(), 10);
    assert_eq!(r[0], "nuevo.stl");
    assert_eq!(r[9], "8.stl");
}

#[test]
fn reciente_en_lista_vacia() {
    let mut r: Vec<String> = Vec::new();
    agregar_reciente(&mut r, "x.stl");
    assert_eq!(r, lista(&["x.stl"]));
}
