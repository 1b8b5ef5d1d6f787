use condorlab::config::AppConfig;
use condorlab::navegador::{EntradaCruda, NavArchivos};
use condorlab::ui::{Efecto, Eje, EstadoUi, Pantalla, Tecla, MOD_CONTROL, MOD_SHIFT, NUM_CAMPOS};

fn estado() -> EstadoUi {
    let cfg = AppConfig {
        valores: vec!["1000".to_string(), "1".to_string()],
        perfil_idx: 2,
        material_idx: 9,
        recientes: vec!["/tmp/a.stl".to_string(), "/tmp/b.gcode".to_string()],
    };
    let listado = vec![
        EntradaCruda { nombre: "pieza.stl".to_string(), es_dir: false, tamano_kb: 3 },
        EntradaCruda { nombre: "sub".to_string(), es_dir: true, tamano_kb: 0 },
    ];
    let nav = NavArchivos::nuevo(vec!["home".to_string()], &listado);
    EstadoUi::nuevo(&cfg, nav, 215, 60)
}

fn tecla(e: &mut EstadoUi, t: Tecla) -> Efecto {
    e.procesar_tecla(t, 0)
}

fn escribir(e: &mut EstadoUi, s: &str) {
    for c in s.chars() {
        tecla(e, Tecla::Char(c));
    }
}

#[test]
fn estado_inicial() {
    let e = estado();
    assert!(e.pantalla == Pantalla::Principal);
    assert_eq!(e.foco, 0);
    assert_eq!(e.perfil_idx, 2);
    assert_eq!(e.material_idx, 5);
    assert_eq!(e.campos.len(), NUM_CAMPOS);
    assert_eq!(e.campos[0], "1000");
    assert_eq!(e.campos[1], "1");
    assert_eq!(e.campos[2], "");
    assert_eq!(e.slicer_campos[6], "215");
    assert_eq!(e.slicer_campos[7], "60");
    assert_eq!(e.slicer_campos[0], "");
    assert_eq!(e.recientes, vec!["/tmp/a.stl".to_string(), "/tmp/b.gcode".to_string()]);
    assert!(!e.hay_modelo && !e.hay_stl);
    assert_eq!((e.slicer_foco, e.sel_reciente, e.paleta_3d, e.modo_wire), (0, 0, 0, 0));
    assert!(!e.auto_rotar && !e.confirmar_salida && !e.confirmar_opcion);
    assert!(!e.slicer_cam_auto && !e.slicer_bandeja_solida && e.guardado_msg.is_none());
}

#[test]
fn tab_recorre_los_campos_en_ciclo() {
    let mut e = estado();
    for _ in 0..NUM_CAMPOS {
        tecla(&mut e, Tecla::Tab);
    }
    assert_eq!(e.foco, 0);
    tecla(&mut e, Tecla::BackTab);
    assert_eq!(e.foco, NUM_CAMPOS - 1);
    tecla(&mut e, Tecla::Abajo);
    assert_eq!(e.foco, 0);
}

#[test]
fn edicion_acepta_un_solo_separador() {
    let mut e = estado();
    tecla(&mut e, Tecla::Char('r'));
    assert_eq!(e.campos[0], "");
    escribir(&mut e, "12.5,3.x7");
    assert_eq!(e.campos[0], "12.537");
    tecla(&mut e, Tecla::Retroceso);
    assert_eq!(e.campos[0], "12.53");
}

#[test]
fn dialogo_de_salida() {
    let mut e = estado();
    assert!(matches!(tecla(&mut e, Tecla::Char('q')), Efecto::Ninguno));
    assert!(e.confirmar_salida && !e.confirmar_opcion);
    // Enter con "No" cierra el diálogo.
    assert!(matches!(tecla(&mut e, Tecla::Enter), Efecto::Ninguno));
    assert!(!e.confirmar_salida);
    tecla(&mut e, Tecla::Esc);
    assert!(e.confirmar_salida);
    tecla(&mut e, Tecla::Tab);
    assert!(e.confirmar_opcion);
    assert!(matches!(tecla(&mut e, Tecla::Enter), Efecto::Salir { guardar: true }));
}

#[test]
fn control_c_sale_guardando() {
    let mut e = estado();
    assert!(matches!(e.procesar_tecla(Tecla::Char('c'), MOD_CONTROL), Efecto::Salir { guardar: true }));
}

#[test]
fn perfil_y_material_en_ciclo() {
    let mut e = estado();
    assert!(matches!(tecla(&mut e, Tecla::Char('p')), Efecto::AplicarPerfil));
    assert_eq!(e.perfil_idx, 3);
    assert!(matches!(tecla(&mut e, Tecla::Char('m')), Efecto::AplicarMaterial));
    assert_eq!(e.material_idx, 0);
}

#[test]
fn guardar_cotizacion_y_aviso() {
    let mut e = estado();
    assert!(matches!(tecla(&mut e, Tecla::Char('s')), Efecto::GuardarCotizacion));
    assert_eq!(e.guardado_msg, Some(30));
    tecla(&mut e, Tecla::Tab);
    assert_eq!(e.guardado_msg, Some(29));
}

#[test]
fn vista_y_slicer_requieren_modelo() {
    let mut e = estado();
    tecla(&mut e, Tecla::Char('v'));
    assert!(e.pantalla == Pantalla::Principal);
    tecla(&mut e, Tecla::Char('x'));
    assert!(e.pantalla == Pantalla::Principal);
    e.hay_modelo = true;
    e.hay_stl = true;
    tecla(&mut e, Tecla::Char('v'));
    assert!(e.pantalla == Pantalla::Vista3D);
    tecla(&mut e, Tecla::Char('z'));
    assert!(e.pantalla == Pantalla::Principal);
    assert!(matches!(tecla(&mut e, Tecla::Char('x')), Efecto::AbrirSlicer));
    assert!(e.pantalla == Pantalla::Slicer && e.slicer_cam_auto);
}

#[test]
fn vista_3d_gira_y_cambia_paleta() {
    let mut e = estado();
    e.hay_modelo = true;
    tecla(&mut e, Tecla::Char('v'));
    e.auto_rotar = true;
    assert!(matches!(tecla(&mut e, Tecla::Izquierda), Efecto::GirarVista { eje: Eje::Y, sentido: -1 }));
    assert!(!e.auto_rotar);
    for _ in 0..5 {
        tecla(&mut e, Tecla::Char('c'));
    }
    assert_eq!(e.paleta_3d, 0);
    tecla(&mut e, Tecla::Char('w'));
    assert_eq!(e.modo_wire, 1);
    assert!(matches!(tecla(&mut e, Tecla::Char('r')), Efecto::ReiniciarVista));
    assert!(e.auto_rotar);
}

#[test]
fn explorador_abre_archivo() {
    let mut e = estado();
    tecla(&mut e, Tecla::Char('a'));
    assert!(e.pantalla == Pantalla::Archivos);
    // Entradas: "..", "sub", "pieza.stl".
    tecla(&mut e, Tecla::Abajo);
    tecla(&mut e, Tecla::Abajo);
    match tecla(&mut e, Tecla::Enter) {
        Efecto::AbrirArchivo(r) => assert_eq!(r, vec!["home".to_string(), "pieza.stl".to_string()]),
        _ => panic!("se esperaba abrir el archivo"),
    }
    tecla(&mut e, Tecla::Arriba);
    assert!(matches!(tecla(&mut e, Tecla::Derecha), Efecto::RecargarDirectorio));
    assert_eq!(e.nav.directorio, vec!["home".to_string(), "sub".to_string()]);
    assert!(matches!(tecla(&mut e, Tecla::Esc), Efecto::Ninguno));
    assert!(e.pantalla == Pantalla::Principal);
}

#[test]
fn recientes_abre_el_elegido() {
    let mut e = estado();
    tecla(&mut e, Tecla::Char('f'));
    assert!(e.pantalla == Pantalla::Recientes);
    tecla(&mut e, Tecla::Abajo);
    tecla(&mut e, Tecla::Abajo);
    assert_eq!(e.sel_reciente, 1);
    match tecla(&mut e, Tecla::Enter) {
        Efecto::AbrirReciente(r) => assert_eq!(r, "/tmp/b.gcode"),
        _ => panic!("se esperaba abrir un reciente"),
    }
}

#[test]
fn slicer_teclas_de_objeto_y_camara() {
    let mut e = estado();
    e.hay_stl = true;
    tecla(&mut e, Tecla::Char('x'));
    assert!(matches!(e.procesar_tecla(Tecla::Izquierda, MOD_SHIFT), Efecto::MoverObjeto { dx: -1, dy: 0 }));
    assert!(matches!(e.procesar_tecla(Tecla::Arriba, MOD_CONTROL), Efecto::EscalarObjeto(true)));
    assert!(matches!(e.procesar_tecla(Tecla::Char('0'), MOD_CONTROL), Efecto::ReiniciarTransformacion));
    assert!(matches!(tecla(&mut e, Tecla::Char('j')), Efecto::MoverCamara { eje: Eje::Y, sentido: -1 }));
    assert!(!e.slicer_cam_auto);
    assert!(matches!(tecla(&mut e, Tecla::Enter), Efecto::EjecutarSlicer));
    assert!(matches!(tecla(&mut e, Tecla::Char('g')), Efecto::GuardarGcode));
    tecla(&mut e, Tecla::Abajo);
    assert_eq!(e.slicer_foco, 1);
    escribir(&mut e, "0,2");
    assert_eq!(e.slicer_campos[1], "0,2");
}

#[test]
fn reciente_agregado_al_estado() {
    let mut e = estado();
    e.agregar_reciente("/tmp/b.gcode");
    assert_eq!(e.recientes, vec!["/tmp/b.gcode".to_string(), "/tmp/a.stl".to_string()]);
}

#[test]
fn perfil_aplica_solo_valores_positivos() {
    let mut e = estado();
    e.campos[4] = "999".to_string();
    e.aplicar_perfil(220, 585900, 3000, 300);
    assert_eq!(e.campos[4], "220");
    assert_eq!(e.campos[6], "585900");
    assert_eq!(e.campos[7], "3000");
    assert_eq!(e.campos[8], "300");
    // Perfil personalizado: todo en cero, nada cambia.
    e.campos[4] = "180".to_string();
    e.aplicar_perfil(0, 0, 0, 0);
    assert_eq!(e.campos[4], "180");
    assert_eq!(e.campos[6], "585900");
}

#[test]
fn material_carga_precio_y_temperaturas() {
    let mut e = estado();
    e.aplicar_material(15000, 240, 80);
    assert_eq!(e.campos[0], "15000");
    assert_eq!(e.slicer_campos[6], "240");
    assert_eq!(e.slicer_campos[7], "80");
    assert_eq!(e.campos[1], "1");
}
