//! Piezas de texto fijas del G-code generado.

use vstd::prelude::*;
use vstd::string::*;
use crate::texto::{empujar, es_digito};

verus! {

/// Texto del bloque final de todo G-code: apaga ventilador, retrae, levanta
/// la boquilla, vuelve a home en XY y apaga hotend, cama y motores.
pub open spec fn texto_fin_gcode() -> Seq<char> {
    "\n; === FIN ===\nM107         ; apagar ventilador\nG91          ; relativo\nG1 E-2 F2700 ; retracción final\nG1 Z10 F3000 ; levantar boquilla\nG90          ; volver a absoluto\nG28 X Y      ; home XY\nM104 S0      ; apagar hotend\nM140 S0      ; apagar cama\nM84          ; apagar motores\n"@
}

/// Agrega al final de `out` el bloque de cierre del G-code.
pub fn escribir_end_gcode(out: &mut String)
    ensures
        final(out)@ == old(out)@ + texto_fin_gcode(),
{
    out.append("\n; === FIN ===\nM107         ; apagar ventilador\nG91          ; relativo\nG1 E-2 F2700 ; retracción final\nG1 Z10 F3000 ; levantar boquilla\nG90          ; volver a absoluto\nG28 X Y      ; home XY\nM104 S0      ; apagar hotend\nM140 S0      ; apagar cama\nM84          ; apagar motores\n");
}



/// Dígito decimal de un valor 0–9.
pub open spec fn digito_de(d: nat) -> char {
    ('0' as u32 + d) as char
}

/// Escritura decimal de `n`, sin ceros a la izquierda (como la hace `{}`).
pub open spec fn decimal_u32(n: nat) -> Seq<char>
    decreases n,
{
    if n < 10 {
        seq![digito_de(n)]
    } else {
        decimal_u32(n / 10).push(digito_de(n % 10))
    }
}

/// Agrega a `out` la escritura decimal de `n`.
pub fn escribir_u32(out: &mut String, n: u32)
    ensures
        final(out)@ == old(out)@ + decimal_u32(n as nat),
    decreases n,
{
    if n >= 10 {
        escribir_u32(out, n / 10);
    }
    let d = n % 10;
    let c = if d == 0 { '0' } else if d == 1 { '1' } else if d == 2 { '2' } else if d == 3 {
        '3'
    } else if d == 4 { '4' } else if d == 5 { '5' } else if d == 6 { '6' } else if d == 7 {
        '7'
    } else if d == 8 { '8' } else { '9' };
    assert(c == digito_de(d as nat));
    empujar(out, c);
    proof {
        if n >= 10 {
            assert(decimal_u32(n as nat) == decimal_u32((n / 10) as nat).push(c));
        }
    }
}

/// Texto del bloque de inicio: unidades, modo absoluto, temperaturas de cama y
/// hotend (primero sin esperar, después esperando), home, reset del extrusor y
/// línea de purga.
pub open spec fn texto_inicio_gcode(temp_cama: u32, temp_hotend: u32) -> Seq<char> {
    "; === INICIO ===\nG21        ; unidades en mm\nG90        ; posicionamiento absoluto\nM82        ; extrusión absoluta\nM107       ; ventilador apagado (primera capa sin cooling)\nM140 S"@
        + decimal_u32(temp_cama as nat) + "   ; temperatura cama (no bloquea)\nM104 S"@
        + decimal_u32(temp_hotend as nat) + "  ; temperatura hotend (no bloquea)\nM190 S"@
        + decimal_u32(temp_cama as nat) + "   ; esperar cama\nM109 S"@ + decimal_u32(
        temp_hotend as nat,
    )
        + "  ; esperar hotend\nG28        ; home todos los ejes\nG92 E0     ; reset extrusor\n; --- Línea de purga ---\nG1 Z0.30 F3000\nG1 X10.0 Y20.0 F5000\nG1 X10.0 Y190.0 E14.0 F1500\nG92 E0\n\n"@
}

/// Agrega a `out` el bloque de inicio del G-code para las temperaturas dadas.
pub fn escribir_start_gcode(out: &mut String, temp_cama: u32, temp_hotend: u32)
    ensures
        final(out)@ == old(out)@ + texto_inicio_gcode(temp_cama, temp_hotend),
{
    let ghost o = out@;
    out.append("; === INICIO ===\nG21        ; unidades en mm\nG90        ; posicionamiento absoluto\nM82        ; extrusión absoluta\nM107       ; ventilador apagado (primera capa sin cooling)\nM140 S");
    escribir_u32(out, temp_cama);
    out.append("   ; temperatura cama (no bloquea)\nM104 S");
    escribir_u32(out, temp_hotend);
    out.append("  ; temperatura hotend (no bloquea)\nM190 S");
    escribir_u32(out, temp_cama);
    out.append("   ; esperar cama\nM109 S");
    escribir_u32(out, temp_hotend);
    out.append("  ; esperar hotend\nG28        ; home todos los ejes\nG92 E0     ; reset extrusor\n; --- Línea de purga ---\nG1 Z0.30 F3000\nG1 X10.0 Y20.0 F5000\nG1 X10.0 Y190.0 E14.0 F1500\nG92 E0\n\n");
    assert(out@ =~= o + texto_inicio_gcode(temp_cama, temp_hotend));
}

/// La escritura decimal tiene al menos un dígito, sólo dígitos, y alguno
/// distinto de `0` si el número es positivo.
pub proof fn lema_decimal_digitos(n: nat)
    ensures
        decimal_u32(n).len() > 0,
        forall|k: int| 0 <= k < decimal_u32(n).len() ==> es_digito(#[trigger] decimal_u32(n)[k]),
        n > 0 ==> exists|k: int| 0 <= k < decimal_u32(n).len() && #[trigger] decimal_u32(n)[k] != '0',
    decreases n,
{
    if n >= 10 {
        lema_decimal_digitos(n / 10);
        let p = decimal_u32(n / 10);
        let q = decimal_u32(n);
        assert(q == p.push(digito_de(n % 10)));
        assert forall|k: int| 0 <= k < q.len() implies es_digito(#[trigger] q[k]) by {
            if k < p.len() {
                assert(q[k] == p[k]);
            }
        }
        let k = choose|k: int| 0 <= k < p.len() && #[trigger] p[k] != '0';
        assert(q[k] == p[k]);
    } else {
        assert(decimal_u32(n)[0] == digito_de(n));
    }
}

} // verus!
