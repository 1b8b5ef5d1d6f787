use condorlab::cabecera::{
    istrip, leer_cabecera, parse_tiempo, primer_valor, primera_longitud, tiempo_de_linea, CabeceraGcode, Longitud,
    Slicer, Termino, TiempoLeido,
};
use condorlab::gcode::{escribir_end_gcode, escribir_start_gcode};
use condorlab::numeros::Decimal;

fn chars(s: &str) -> Vec<char> {
    s.chars().collect()
}

fn texto(v: &[char]) -> String {
    v.iter().collect()
}

fn digitos(v: &[u8]) -> String {
    v.iter().map(|d| char::from(b'0' + d)).collect()
}

/// Valor de un decimal leído, como lo toma el programa.
fn valor(d: &Decimal) -> f64 {
    format!("{}.{}", digitos(&d.entero), digitos(&d.fraccion)).parse().unwrap()
}

/// Minutos de unos términos sumados.
fn suma(ts: &[Termino]) -> f64 {
    ts.iter()
        .map(|t| match t {
            Termino::Horas(d) => valor(d) * 60.0,
            Termino::Minutos(d) => valor(d),
            Termino::Segundos(d) => valor(d) / 60.0,
        })
        .sum()
}

/// Minutos de una lectura de tiempo.
fn minutos(t: &TiempoLeido) -> f64 {
    match t {
        TiempoLeido::Suma(ts) => suma(ts),
        TiempoLeido::Otro { reloj, minutos, segundos } => {
            if let Some((h, m, s)) = reloj {
                let h: f64 = texto(h).parse().unwrap_or(0.0);
                let m: f64 = texto(m).parse().unwrap_or(0.0);
                let s: f64 = texto(s).parse().unwrap_or(0.0);
                if h > 0.0 || m > 0.0 || s > 0.0 {
                    return h * 60.0 + m + s / 60.0;
                }
            }
            let c = suma(minutos);
            if c > 0.0 {
                return c;
            }
            match segundos {
                Some(s) => texto(s).parse::<f64>().unwrap_or(0.0) / 60.0,
                None => 0.0,
            }
        }
    }
}

fn tiempo(linea: &str) -> f64 {
    minutos(&parse_tiempo(&chars(linea)))
}

/// Candidato que vale (el primero no nulo), o 0.
fn primero(ds: &Vec<Decimal>) -> f64 {
    primer_valor(ds, false).map(|k| valor(&ds[k])).unwrap_or(0.0)
}

/// Candidato entero que vale, o 0.
fn primero_entero(ds: &Vec<Decimal>) -> u64 {
    primer_valor(ds, true).map(|k| valor(&ds[k]) as u64).unwrap_or(0)
}

fn milimetros(ls: &Vec<Longitud>) -> f64 {
    match primera_longitud(ls).map(|k| &ls[k]) {
        Some(Longitud::Milimetros(d)) => valor(d),
        Some(Longitud::Metros(d)) => valor(d) * 1000.0,
        None => 0.0,
    }
}

fn dec(entero: &[u8], fraccion: &[u8]) -> Decimal {
    Decimal { entero: entero.to_vec(), fraccion: fraccion.to_vec() }
}

fn tiempo_de(c: &CabeceraGcode) -> f64 {
    c.tiempo.iter().map(minutos).find(|v| *v != 0.0).unwrap_or(0.0)
}

fn aprox(a: f64, b: f64) -> bool {
    (a - b).abs() < 1e-9
}

// ── istrip ───────────────────────────────────────────────────────────────────

#[test]
fn istrip_sin_distinguir_mayusculas() {
    let r = istrip(&chars("; LAYER_HEIGHT = 0.3"), "; layer_height =").unwrap();
    assert_eq!(texto(&r), " 0.3");
}

#[test]
fn istrip_sin_prefijo_es_none() {
    assert!(istrip(&chars("; layer height = 0.3"), "; layer_height =").is_none());
    assert!(istrip(&chars("; lay"), "; layer_height =").is_none());
}

#[test]
fn istrip_prefijo_completo_deja_vacio() {
    let r = istrip(&chars(";Infill:"), ";infill:").unwrap();
    assert!(r.is_empty());
}

// ── parse_tiempo ─────────────────────────────────────────────────────────────

#[test]
fn tiempo_horas_minutos_segundos() {
    assert!(aprox(tiempo("1h 23m 45s"), 83.75));
}

#[test]
fn tiempo_en_palabras() {
    assert!(aprox(tiempo("2 hours 5 minutes"), 125.0));
    assert!(aprox(tiempo("1 hour"), 60.0));
}

#[test]
fn tiempo_formato_reloj() {
    assert!(aprox(tiempo("1:23:45"), 83.75));
    assert!(aprox(tiempo(";Print time: 0:45:10"), 45.0 + 10.0 / 60.0));
    assert!(aprox(tiempo("Print time: 2:05:00 (aprox.)"), 125.0));
}

#[test]
fn tiempo_en_segundos() {
    assert!(aprox(tiempo("5400"), 90.0));
    // 300 o menos no se toma como segundos.
    assert!(aprox(tiempo("300"), 0.0));
}

#[test]
fn tiempo_prusaslicer() {
    let l = "; estimated printing time (normal mode) = 1h 2m 3s";
    assert!(aprox(tiempo(l), 62.0 + 3.0 / 60.0));
}

#[test]
fn tiempo_h_seguida_de_letra_no_cuenta() {
    // "height": la 'h' va seguida de una letra; no hay horas y no hay reloj.
    assert!(aprox(tiempo("; height 20"), 0.0));
}

#[test]
fn tiempo_solo_minutos() {
    // Minutos dichos como tales, sin horas.
    assert!(aprox(tiempo("90 minutes"), 90.0));
    assert!(aprox(tiempo("45m"), 45.0));
    // Los segundos en palabras no se leen.
    assert!(aprox(tiempo("Print time: 12 minutes 30 seconds"), 12.0));
    match parse_tiempo(&chars("45m")) {
        TiempoLeido::Otro { reloj: None, minutos, segundos: None } => {
            assert_eq!(minutos.len(), 1);
            assert!(matches!(&minutos[0], Termino::Minutos(d) if aprox(valor(d), 45.0)));
        }
        _ => panic!("se esperaban minutos sueltos"),
    }
}

#[test]
fn tiempo_en_palabras_ignora_segundos() {
    // Solo `1h 23m 45s` y `1:23:45` llevan segundos.
    assert!(aprox(tiempo("2 hours 5 minutes 30 seconds"), 125.0));
    assert!(aprox(tiempo("1 hours 23 minutes 45 seconds"), 83.0));
    assert!(aprox(tiempo("45 seconds"), 0.0));
    assert!(aprox(tiempo("45s"), 0.0));
}

#[test]
fn tiempo_de_linea_usa_la_linea_en_minusculas() {
    // Las palabras se buscan en la línea en minúsculas dada aparte.
    match tiempo_de_linea(&chars("1h 30m"), &chars("1H 30M")) {
        TiempoLeido::Suma(ts) => {
            assert_eq!(ts.len(), 2);
            assert!(matches!(&ts[0], Termino::Horas(d) if aprox(valor(d), 1.0)));
            assert!(matches!(&ts[1], Termino::Minutos(d) if aprox(valor(d), 30.0)));
        }
        _ => panic!("se esperaba una suma"),
    }
    // Sin la versión en minúsculas, `HOURS` no se reconoce.
    assert!(matches!(
        tiempo_de_linea(&chars("2 HOURS"), &chars("2 HOURS")),
        TiempoLeido::Otro { reloj: None, segundos: None, .. }
    ));
    assert!(aprox(tiempo("2 HOURS"), 120.0));
}

#[test]
fn tiempo_s_de_una_palabra_no_es_segundos() {
    // La 's' final de "minutes" no va pegada a un número.
    match parse_tiempo(&chars("90 minutes")) {
        TiempoLeido::Otro { minutos, .. } => assert_eq!(minutos.len(), 1),
        _ => panic!("se esperaban minutos sueltos"),
    }
}

#[test]
fn tiempo_minutos_solo_despues_de_hour() {
    match parse_tiempo(&chars("3 hours 7 minutes")) {
        TiempoLeido::Suma(ts) => {
            assert_eq!(ts.len(), 2);
            assert!(matches!(&ts[0], Termino::Horas(d) if aprox(valor(d), 3.0)));
            assert!(matches!(&ts[1], Termino::Minutos(d) if aprox(valor(d), 7.0)));
        }
        _ => panic!("se esperaba una suma"),
    }
}

// ── Cabecera completa ────────────────────────────────────────────────────────

#[test]
fn cabecera_prusaslicer() {
    let g = "; generated by PrusaSlicer 2.7.1 on 2024-01-01\n\
             ; estimated printing time (normal mode) = 1h 2m 3s\n\
             ; filament used [mm] = 1234.56\n\
             ; filament used [g] = 3,70\n\
             ; layer_height = 0.2\n\
             ; fill_density = 15%\n\
             M140 S60\n\
             M104 S215\n\
             M190 S60\n\
             M109 S215\n\
             G28\n";
    let c = leer_cabecera(g);
    assert!(c.slicer == Slicer::PrusaSlicer);
    assert!(aprox(tiempo_de(&c), 62.0 + 3.0 / 60.0));
    assert!(aprox(milimetros(&c.filamento_mm), 1234.56));
    assert!(aprox(primero(&c.filamento_g), 3.70));
    assert!(aprox(primero(&c.altura_capa), 0.2));
    assert!(aprox(primero(&c.relleno_pct), 15.0));
    assert_eq!(primero_entero(&c.temp_cama), 60);
    assert_eq!(primero_entero(&c.temp_hotend), 215);
    assert_eq!(c.temp_cama.len(), 2);
    assert!(c.capas.is_empty());
}

#[test]
fn cabecera_cura_filamento_en_metros() {
    let g = ";FLAVOR:Marlin\n\
             ;Filament used: 1.5m\n\
             ;Layer height: 0.12\n\
             ;Layer count: 120\n\
             ;Generated with Cura_SteamEngine 5.4.0\n";
    let c = leer_cabecera(g);
    assert!(c.slicer == Slicer::Cura);
    assert!(aprox(milimetros(&c.filamento_mm), 1500.0));
    assert!(matches!(c.filamento_mm[0], Longitud::Metros(_)));
    assert!(aprox(primero(&c.altura_capa), 0.12));
    assert_eq!(primero_entero(&c.capas), 120);
}

#[test]
fn cabecera_flashprint() {
    let g = "; generated by FlashPrint 5.8.0\n\
             ;   Filament weight: 12.5\n\
             ;   Filament length: 4200\n\
             ;   Layer count: 150\n\
             ;   Layer height: 0.18\n\
             ;   Infill: 20\n\
             ;   Print time: 2:05:00\n";
    let c = leer_cabecera(g);
    assert!(c.slicer == Slicer::FlashPrint);
    assert!(aprox(primero(&c.filamento_g), 12.5));
    assert!(aprox(milimetros(&c.filamento_mm), 4200.0));
    assert_eq!(primero_entero(&c.capas), 150);
    assert!(aprox(primero(&c.altura_capa), 0.18));
    assert!(aprox(primero(&c.relleno_pct), 20.0));
    assert!(aprox(tiempo_de(&c), 125.0));
}

#[test]
fn cabecera_lineas_con_blancos_se_recortan() {
    let c = leer_cabecera("   M104 S200.5   \n\t; layer_height = 0.25\n");
    assert_eq!(primero_entero(&c.temp_hotend), 200);
    assert!(aprox(primero(&c.altura_capa), 0.25));
}

#[test]
fn cabecera_vale_el_primer_valor_no_nulo() {
    let c = leer_cabecera("M104 S0\nM104 S210\nM104 S220\n");
    assert_eq!(c.temp_hotend.len(), 3);
    assert_eq!(primero_entero(&c.temp_hotend), 210);
}

#[test]
fn cabecera_solo_lee_300_lineas() {
    let mut g = String::new();
    for _ in 0..300 {
        g.push_str("; comentario\n");
    }
    g.push_str("M104 S200\n");
    assert!(leer_cabecera(&g).temp_hotend.is_empty());

    let mut g = String::new();
    for _ in 0..299 {
        g.push_str("; comentario\n");
    }
    g.push_str("M104 S200\n");
    assert_eq!(primero_entero(&leer_cabecera(&g).temp_hotend), 200);
}

#[test]
fn cabecera_vacia_no_tiene_nada() {
    let c = leer_cabecera("");
    assert!(c.slicer == Slicer::Desconocido);
    assert!(c.tiempo.is_empty() && c.filamento_g.is_empty() && c.filamento_mm.is_empty());
    assert!(c.capas.is_empty() && c.temp_hotend.is_empty() && c.temp_cama.is_empty());
}

#[test]
fn cabecera_numero_invalido_no_es_candidato() {
    // "1.2.3" no es un número: no aporta valor.
    let c = leer_cabecera("; layer_height = 1.2.3\n");
    assert!(c.altura_capa.is_empty());
}

#[test]
fn cabecera_ultima_marca_de_slicer_gana() {
    let c = leer_cabecera("; PrusaSlicer\n; based on SuperSlicer\n");
    assert!(c.slicer == Slicer::SuperSlicer);
}

#[test]
fn primer_valor_salta_los_ceros() {
    let v = vec![dec(&[0], &[]), dec(&[0, 0], &[0]), dec(&[], &[5]), dec(&[3], &[])];
    assert_eq!(primer_valor(&v, false), Some(2));
    // Como entero, 0.5 vale cero.
    assert_eq!(primer_valor(&v, true), Some(3));
    assert_eq!(primer_valor(&vec![dec(&[0], &[]), dec(&[0, 0], &[0])], false), None);
    assert_eq!(primer_valor(&Vec::new(), true), None);
}

#[test]
fn primera_longitud_salta_los_ceros() {
    let v = vec![Longitud::Metros(dec(&[0], &[0])), Longitud::Milimetros(dec(&[1, 2], &[]))];
    assert_eq!(primera_longitud(&v), Some(1));
    assert_eq!(primera_longitud(&Vec::new()), None);
}

#[test]
fn temperatura_fraccionaria_menor_a_uno_no_vale() {
    // "M104 S0.5" se toma como 0 grados: vale el siguiente.
    let c = leer_cabecera("M104 S0.5\nM109 S205\n");
    assert_eq!(primero_entero(&c.temp_hotend), 205);
}

#[test]
fn lo_que_sigue_a_la_cabecera_no_cuenta() {
    let mut c1 = String::from("; generated by PrusaSlicer\nM140 S60\n");
    for _ in 0..298 {
        c1.push_str("G1 X1 Y1\n");
    }
    let c2 = "M104 S200\nM140 S70\n; Cura\n";
    let a = leer_cabecera(&c1);
    let b = leer_cabecera(&format!("{c1}{c2}"));
    assert!(a.slicer == Slicer::PrusaSlicer && b.slicer == Slicer::PrusaSlicer);
    assert_eq!(b.temp_cama.len(), 1);
    assert_eq!(primero_entero(&b.temp_cama), 60);
    assert!(a.temp_hotend.is_empty() && b.temp_hotend.is_empty());
}

#[test]
fn temperaturas_escritas_se_leen() {
    let mut g = String::from("; Generado por CondorLab Slicer\n; Temp hotend       : 215°C\n\n");
    escribir_start_gcode(&mut g, 60, 215);
    g.push_str("G1 X1 Y1 E0.1\n");
    escribir_end_gcode(&mut g);
    let c = leer_cabecera(&g);
    assert_eq!(primer_valor(&c.temp_cama, true), Some(0));
    assert_eq!(primer_valor(&c.temp_hotend, true), Some(0));
    assert_eq!(primero_entero(&c.temp_cama), 60);
    assert_eq!(primero_entero(&c.temp_hotend), 215);
}
