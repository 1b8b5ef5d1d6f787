use condorlab::gcode::{escribir_end_gcode, escribir_start_gcode, escribir_u32};

#[test]
fn fin_de_gcode_exacto() {
    let mut out = String::from("G1 X1\n");
    escribir_end_gcode(&mut out);
    let esperado = "G1 X1\n\
\n; === FIN ===\n\
M107         ; apagar ventilador\n\
G91          ; relativo\n\
G1 E-2 F2700 ; retracción final\n\
G1 Z10 F3000 ; levantar boquilla\n\
G90          ; volver a absoluto\n\
G28 X Y      ; home XY\n\
M104 S0      ; apagar hotend\n\
M140 S0      ; apagar cama\n\
M84          ; apagar motores\n";
    assert_eq!(out, esperado);
}

#[test]
fn inicio_de_gcode_con_temperaturas() {
    let mut out = String::new();
    escribir_start_gcode(&mut out, 60, 215);
    let esperado = "; === INICIO ===\n\
G21        ; unidades en mm\n\
G90        ; posicionamiento absoluto\n\
M82        ; extrusión absoluta\n\
M107       ; ventilador apagado (primera capa sin cooling)\n\
M140 S60   ; temperatura cama (no bloquea)\n\
M104 S215  ; temperatura hotend (no bloquea)\n\
M190 S60   ; esperar cama\n\
M109 S215  ; esperar hotend\n\
G28        ; home todos los ejes\n\
G92 E0     ; reset extrusor\n\
; --- Línea de purga ---\n\
G1 Z0.30 F3000\n\
G1 X10.0 Y20.0 F5000\n\
G1 X10.0 Y190.0 E14.0 F1500\n\
G92 E0\n\n";
    assert_eq!(out, esperado);
}

#[test]
fn inicio_con_temperatura_cero() {
    let mut out = String::new();
    escribir_start_gcode(&mut out, 0, 0);
    assert!(out.contains("M140 S0   ; temperatura cama (no bloquea)\n"));
    assert!(out.contains("M109 S0  ; esperar hotend\n"));
}

#[test]
fn u32_en_decimal() {
    for n in [0u32, 7, 10, 60, 215, 1000, 4294967295] {
        let mut out = String::from("S");
        escribir_u32(&mut out, n);
        assert_eq!(out, format!("S{}", n));
    }
}
