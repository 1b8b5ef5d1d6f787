use condorlab::navegador::{clase_archivo, Accion, ClaseArchivo, EntradaCruda, EntradaDir, NavArchivos};

fn cruda(nombre: &str, es_dir: bool, kb: u64) -> EntradaCruda {
    EntradaCruda { nombre: nombre.to_string(), es_dir, tamano_kb: kb }
}

fn listado() -> Vec<EntradaCruda> {
    vec![
        cruda("zeta.STL", false, 12),
        cruda("modelos", true, 0),
        cruda(".oculto", true, 0),
        cruda("Pieza.gcode", false, 300),
        cruda(".config.json", false, 1),
        cruda("docs", true, 0),
        cruda("notas", false, 1),
        cruda("arco.tar.gz", false, 5),
    ]
}

fn nombres(n: &NavArchivos) -> Vec<&str> {
    n.entradas.iter().map(|e| e.nombre.as_str()).collect()
}

fn dir(v: &[&str]) -> Vec<String> {
    v.iter().map(|s| s.to_string()).collect()
}

#[test]
fn listado_padre_directorios_y_archivos_ordenados() {
    let n = NavArchivos::nuevo(dir(&["home"]), &listado());
    assert_eq!(
        nombres(&n),
        vec!["..", "docs", "modelos", "Pieza.gcode", "arco.tar.gz", "notas", "zeta.STL"]
    );
    assert_eq!(n.seleccion, 0);
    assert_eq!(n.scroll, 0);
    assert!(n.filtro.is_empty());
    assert!(n.error.is_none());
}

#[test]
fn listado_en_la_raiz_no_tiene_padre() {
    let n = NavArchivos::nuevo(Vec::new(), &listado());
    assert_eq!(n.entradas[0].nombre, "docs");
}

#[test]
fn extensiones_en_minusculas_y_relevantes() {
    let n = NavArchivos::nuevo(Vec::new(), &listado());
    let ext: Vec<(&str, &str, bool)> =
        n.entradas.iter().map(|e| (e.nombre.as_str(), e.ext.as_str(), e.relevante())).collect();
    assert!(ext.contains(&("zeta.STL", "stl", true)));
    assert!(ext.contains(&("Pieza.gcode", "gcode", true)));
    assert!(ext.contains(&("arco.tar.gz", "gz", false)));
    assert!(ext.contains(&("notas", "", false)));
}

#[test]
fn relevante_segun_extension() {
    for (ext, r) in [("stl", true), ("gcode", true), ("gco", true), ("g", true), ("obj", false), ("STL", false), ("", false)] {
        let e = EntradaDir { nombre: "x".to_string(), es_dir: false, tamano_kb: 0, ext: ext.to_string() };
        assert_eq!(e.relevante(), r, "{ext}");
    }
}

#[test]
fn filtro_sin_distinguir_mayusculas() {
    let mut n = NavArchivos::nuevo(dir(&["home"]), &listado());
    n.filtro = "PIEZA".to_string();
    let ids = n.filtradas();
    assert_eq!(ids.len(), 1);
    assert_eq!(n.entradas[ids[0]].nombre, "Pieza.gcode");
    n.filtro = String::new();
    assert_eq!(n.filtradas().len(), n.entradas.len());
}

#[test]
fn mover_no_sale_de_la_lista() {
    let mut n = NavArchivos::nuevo(dir(&["home"]), &listado());
    n.mover(-1);
    assert_eq!(n.seleccion, 0);
    n.mover(3);
    assert_eq!(n.seleccion, 3);
    n.mover(100);
    assert_eq!(n.seleccion, n.entradas.len() - 1);
}

#[test]
fn mover_dentro_de_las_filtradas() {
    let mut n = NavArchivos::nuevo(dir(&["home"]), &listado());
    n.tipear('o');
    // Coinciden: docs, modelos, Pieza.gcode, arco.tar.gz, notas.
    assert_eq!(n.entradas[n.seleccion].nombre, "docs");
    n.mover(1);
    assert_eq!(n.entradas[n.seleccion].nombre, "modelos");
    n.mover(5);
    assert_eq!(n.entradas[n.seleccion].nombre, "notas");
}

#[test]
fn confirmar_directorio_entra_y_pide_recargar() {
    let mut n = NavArchivos::nuevo(dir(&["home"]), &listado());
    n.filtro = "mod".to_string();
    n.seleccion = 2;
    assert!(matches!(n.confirmar(), Accion::Recargar));
    assert_eq!(n.directorio, dir(&["home", "modelos"]));
    assert!(n.filtro.is_empty());
}

#[test]
fn confirmar_punto_punto_sube() {
    let mut n = NavArchivos::nuevo(dir(&["home", "ana"]), &listado());
    n.seleccion = 0;
    assert!(matches!(n.confirmar(), Accion::Recargar));
    assert_eq!(n.directorio, dir(&["home"]));
}

#[test]
fn confirmar_archivo_devuelve_la_ruta() {
    let mut n = NavArchivos::nuevo(dir(&["home"]), &listado());
    n.seleccion = 3;
    match n.confirmar() {
        Accion::Abrir(r) => assert_eq!(r, dir(&["home", "Pieza.gcode"])),
        _ => panic!("se esperaba abrir un archivo"),
    }
    assert_eq!(n.directorio, dir(&["home"]));
}

#[test]
fn confirmar_usa_la_primera_filtrada() {
    let mut n = NavArchivos::nuevo(dir(&["home"]), &listado());
    n.filtro = "zeta".to_string();
    n.seleccion = 0;
    match n.confirmar() {
        Accion::Abrir(r) => assert_eq!(r, dir(&["home", "zeta.STL"])),
        _ => panic!("se esperaba abrir un archivo"),
    }
}

#[test]
fn confirmar_sin_coincidencias_no_hace_nada() {
    let mut n = NavArchivos::nuevo(dir(&["home"]), &listado());
    n.filtro = "xyz".to_string();
    assert!(matches!(n.confirmar(), Accion::Nada));
    assert_eq!(n.directorio, dir(&["home"]));
}

#[test]
fn subir_y_raiz() {
    let mut n = NavArchivos::nuevo(dir(&["home"]), &listado());
    n.filtro = "a".to_string();
    assert!(n.subir());
    assert!(n.directorio.is_empty());
    assert!(n.filtro.is_empty());
    assert!(!n.subir());
}

#[test]
fn cargar_reemplaza_y_reinicia_seleccion() {
    let mut n = NavArchivos::nuevo(dir(&["home"]), &listado());
    n.seleccion = 4;
    n.scroll = 2;
    n.cargar(&vec![cruda("b.stl", false, 1), cruda("a.stl", false, 1)]);
    assert_eq!(nombres(&n), vec!["..", "a.stl", "b.stl"]);
    assert_eq!(n.seleccion, 0);
    assert_eq!(n.scroll, 0);
}

#[test]
fn retroceso_borra_filtro_y_luego_sube() {
    let mut n = NavArchivos::nuevo(dir(&["home"]), &listado());
    n.tipear('z');
    assert_eq!(n.filtro, "z");
    assert!(!n.retroceso());
    assert!(n.filtro.is_empty());
    assert!(n.retroceso());
    assert!(n.directorio.is_empty());
}

#[test]
fn ventana_sigue_a_la_seleccion() {
    let mut n = NavArchivos::nuevo(dir(&["home"]), &listado());
    // 7 entradas, 3 renglones visibles.
    assert_eq!(n.primera_visible(3), 0);
    n.seleccion = 2;
    assert_eq!(n.primera_visible(3), 0);
    n.seleccion = 5;
    assert_eq!(n.primera_visible(3), 3);
    n.seleccion = 6;
    assert_eq!(n.primera_visible(3), 4);
    n.scroll = 5;
    n.seleccion = 1;
    assert_eq!(n.primera_visible(3), 1);
}

#[test]
fn ventana_dentro_de_las_filtradas() {
    let mut n = NavArchivos::nuevo(dir(&["home"]), &listado());
    n.filtro = "o".to_string();
    // Filtradas: docs, modelos, Pieza.gcode, arco.tar.gz, notas (posiciones 0..4).
    n.seleccion = 5;
    assert_eq!(n.primera_visible(2), 3);
}

#[test]
fn clase_segun_extension() {
    assert!(matches!(clase_archivo("pieza.STL"), ClaseArchivo::Stl));
    assert!(matches!(clase_archivo("a.b.gcode"), ClaseArchivo::Gcode));
    assert!(matches!(clase_archivo("x.gco"), ClaseArchivo::Gcode));
    assert!(matches!(clase_archivo("x.G"), ClaseArchivo::Gcode));
    match clase_archivo("modelo.OBJ") {
        ClaseArchivo::Otro(e) => assert_eq!(e, "obj"),
        _ => panic!("se esperaba otra clase"),
    }
    match clase_archivo("README") {
        ClaseArchivo::Otro(e) => assert_eq!(e, ""),
        _ => panic!("se esperaba otra clase"),
    }
    match clase_archivo(".stl") {
        ClaseArchivo::Otro(e) => assert_eq!(e, ""),
        _ => panic!("un nombre que empieza con punto no tiene extensión"),
    }
}

#[test]
fn entrar_y_subir_vuelve_al_directorio() {
    let mut n = NavArchivos::nuevo(dir(&["home"]), &listado());
    n.seleccion = 1; // docs
    assert!(matches!(n.confirmar(), Accion::Recargar));
    assert_eq!(n.directorio, dir(&["home", "docs"]));
    n.cargar(&vec![cruda("x.stl", false, 1)]);
    assert!(n.subir());
    assert_eq!(n.directorio, dir(&["home"]));
}

#[test]
fn mover_con_delta_extremo() {
    let mut n = NavArchivos::nuevo(Vec::new(), &vec![cruda("a.stl", false, 1)]);
    n.mover(i32::MAX);
    assert_eq!(n.seleccion, 0);
    n.mover(i32::MIN);
    assert_eq!(n.seleccion, 0);
    let mut m = NavArchivos::nuevo(dir(&["home"]), &listado());
    m.seleccion = 3;
    m.mover(i32::MAX);
    assert_eq!(m.seleccion, m.entradas.len() - 1);
}

#[test]
fn filtro_vacio_lista_todo() {
    let n = NavArchivos::nuevo(dir(&["home"]), &listado());
    assert_eq!(n.filtradas(), (0..n.entradas.len()).collect::<Vec<usize>>());
}
