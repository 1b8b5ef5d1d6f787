//! Estado discreto de la interfaz y su respuesta a cada tecla.
//!
//! La interfaz guarda aquí lo que se decide sin números de punto flotante:
//! pantalla activa, foco de los campos y su texto, perfil y material, paleta y
//! modo de la vista 3D, diálogo de salida, archivos recientes y explorador.
//! Cada tecla produce el nuevo estado y un `Efecto` que el programa ejecuta
//! (mover la cámara, abrir un archivo, slicear, guardar…).

use crate::config::{agregar_reciente, recientes_tras, vista_textos};
use crate::navegador::{
    confirmar_spec, con_directorio, filtradas_spec, mover_spec, Accion, AccionV, NavArchivos, NavV,
    vista_dir,
};
use crate::gcode::{decimal_u32, escribir_u32};
use crate::texto::{empujar, es_digito, quitar_ultimo};
use vstd::prelude::*;
use vstd::string::*;

verus! {

/// Cantidad de campos de la calculadora de costos.
pub const NUM_CAMPOS: usize = 15;

/// Cantidad de campos de configuración del slicer.
pub const NUM_SLICER_CAMPOS: usize = 12;

/// Cantidad de perfiles de impresora.
pub const NUM_PERFILES: usize = 6;

/// Cantidad de materiales.
pub const NUM_MATERIALES: usize = 6;

/// Cantidad de paletas de la vista 3D.
pub const NUM_PALETAS: u8 = 5;

/// Cantidad de modos de dibujo de la vista 3D (sólido, aristas, ambos).
pub const NUM_MODOS: u8 = 3;

/// Pasos de la cuenta regresiva del aviso de cotización guardada.
pub const PASOS_AVISO: u8 = 30;

/// Campos de la calculadora que escriben el perfil y el material.
pub const F_PRECIO_KG: usize = 0;
pub const F_WATTS: usize = 4;
pub const F_COSTO_IMP: usize = 6;
pub const F_VIDA: usize = 7;
pub const F_MANT: usize = 8;

/// Campos del slicer con las temperaturas del material.
pub const SC_TEMP_HOTEND: usize = 6;
pub const SC_TEMP_CAMA: usize = 7;

/// Bits de modificadores de teclado.
pub const MOD_SHIFT: u8 = 1;
pub const MOD_CONTROL: u8 = 2;

#[derive(Clone, Copy, PartialEq, Eq, Structural)]
pub enum Pantalla {
    Principal,
    Historial,
    Ayuda,
    Archivos,
    Vista3D,
    Recientes,
    Slicer,
}

/// Tecla pulsada (las que la interfaz distingue).
#[derive(Clone, Copy, PartialEq, Eq, Structural)]
pub enum Tecla {
    Char(char),
    Enter,
    Esc,
    Tab,
    BackTab,
    Arriba,
    Abajo,
    Izquierda,
    Derecha,
    Retroceso,
    Otra,
}

/// Eje de giro de la vista 3D o de la cámara del slicer.
#[derive(Clone, Copy, PartialEq, Eq, Structural)]
pub enum Eje {
    X,
    Y,
    Z,
}

/// Lo que el programa tiene que hacer después de una tecla.
pub enum Efecto {
    Ninguno,
    /// Terminar (guardando el estado si `guardar`).
    Salir { guardar: bool },
    /// El explorador cambió de directorio: leerlo y cargarlo.
    RecargarDirectorio,
    /// Abrir el archivo del explorador (componentes de la ruta).
    AbrirArchivo(Vec<String>),
    /// Abrir un archivo reciente (su ruta).
    AbrirReciente(String),
    /// Girar la vista 3D un paso en `sentido` (±1) alrededor de `eje`.
    GirarVista { eje: Eje, sentido: i8 },
    /// Acercar (`true`) o alejar la vista 3D.
    ZoomVista(bool),
    /// Volver la vista 3D a su orientación inicial.
    ReiniciarVista,
    /// Mover el objeto en la bandeja un paso (±1, en X e Y).
    MoverObjeto { dx: i8, dy: i8 },
    /// Girar el objeto un paso (±1) alrededor de Z.
    GirarObjeto(i8),
    /// Agrandar (`true`) o achicar el objeto.
    EscalarObjeto(bool),
    /// Volver a centrar el objeto, sin giro ni escala.
    ReiniciarTransformacion,
    /// Mover la cámara del slicer un paso en `sentido` alrededor de `eje`.
    MoverCamara { eje: Eje, sentido: i8 },
    /// Acercar (`true`) o alejar la cámara del slicer.
    ZoomSlicer(bool),
    EjecutarSlicer,
    GuardarGcode,
    AplicarPerfil,
    AplicarMaterial,
    GuardarCotizacion,
    /// Se abrió el slicer: cámara a su posición inicial.
    AbrirSlicer,
}

pub enum EfectoV {
    Ninguno,
    Salir { guardar: bool },
    RecargarDirectorio,
    AbrirArchivo(Seq<Seq<char>>),
    AbrirReciente(Seq<char>),
    GirarVista { eje: Eje, sentido: i8 },
    ZoomVista(bool),
    ReiniciarVista,
    MoverObjeto { dx: i8, dy: i8 },
    GirarObjeto(i8),
    EscalarObjeto(bool),
    ReiniciarTransformacion,
    MoverCamara { eje: Eje, sentido: i8 },
    ZoomSlicer(bool),
    EjecutarSlicer,
    GuardarGcode,
    AplicarPerfil,
    AplicarMaterial,
    GuardarCotizacion,
    AbrirSlicer,
}

impl View for Efecto {
    type V = EfectoV;

    open spec fn view(&self) -> EfectoV {
        match self {
            Efecto::Ninguno => EfectoV::Ninguno,
            Efecto::Salir { guardar } => EfectoV::Salir { guardar: *guardar },
            Efecto::RecargarDirectorio => EfectoV::RecargarDirectorio,
            Efecto::AbrirArchivo(v) => EfectoV::AbrirArchivo(vista_dir(v@)),
            Efecto::AbrirReciente(s) => EfectoV::AbrirReciente(s@),
            Efecto::GirarVista { eje, sentido } => EfectoV::GirarVista { eje: *eje, sentido: *sentido },
            Efecto::ZoomVista(b) => EfectoV::ZoomVista(*b),
            Efecto::ReiniciarVista => EfectoV::ReiniciarVista,
            Efecto::MoverObjeto { dx, dy } => EfectoV::MoverObjeto { dx: *dx, dy: *dy },
            Efecto::GirarObjeto(s) => EfectoV::GirarObjeto(*s),
            Efecto::EscalarObjeto(b) => EfectoV::EscalarObjeto(*b),
            Efecto::ReiniciarTransformacion => EfectoV::ReiniciarTransformacion,
            Efecto::MoverCamara { eje, sentido } => EfectoV::MoverCamara { eje: *eje, sentido: *sentido },
            Efecto::ZoomSlicer(b) => EfectoV::ZoomSlicer(*b),
            Efecto::EjecutarSlicer => EfectoV::EjecutarSlicer,
            Efecto::GuardarGcode => EfectoV::GuardarGcode,
            Efecto::AplicarPerfil => EfectoV::AplicarPerfil,
            Efecto::AplicarMaterial => EfectoV::AplicarMaterial,
            Efecto::GuardarCotizacion => EfectoV::GuardarCotizacion,
            Efecto::AbrirSlicer => EfectoV::AbrirSlicer,
        }
    }
}

/// Estado discreto de la interfaz.
pub struct EstadoUi {
    pub pantalla: Pantalla,
    pub foco: usize,
    pub slicer_foco: usize,
    pub perfil_idx: usize,
    pub material_idx: usize,
    pub sel_reciente: usize,
    pub recientes: Vec<String>,
    pub paleta_3d: u8,
    pub modo_wire: u8,
    pub auto_rotar: bool,
    pub confirmar_salida: bool,
    pub confirmar_opcion: bool,
    pub slicer_cam_auto: bool,
    pub slicer_bandeja_solida: bool,
    pub guardado_msg: Option<u8>,
    /// Texto de cada campo de la calculadora.
    pub campos: Vec<String>,
    /// Texto de cada campo del slicer.
    pub slicer_campos: Vec<String>,
    pub nav: NavArchivos,
    /// Hay un modelo listo para la vista 3D.
    pub hay_modelo: bool,
    /// Hay un STL cargado.
    pub hay_stl: bool,
}

#[verifier::ext_equal]
pub struct EstadoV {
    pub pantalla: Pantalla,
    pub foco: usize,
    pub slicer_foco: usize,
    pub perfil_idx: usize,
    pub material_idx: usize,
    pub sel_reciente: usize,
    pub recientes: Seq<Seq<char>>,
    pub paleta_3d: u8,
    pub modo_wire: u8,
    pub auto_rotar: bool,
    pub confirmar_salida: bool,
    pub confirmar_opcion: bool,
    pub slicer_cam_auto: bool,
    pub slicer_bandeja_solida: bool,
    pub guardado_msg: Option<u8>,
    pub campos: Seq<Seq<char>>,
    pub slicer_campos: Seq<Seq<char>>,
    pub nav: NavV,
    pub hay_modelo: bool,
    pub hay_stl: bool,
}

impl View for EstadoUi {
    type V = EstadoV;

    open spec fn view(&self) -> EstadoV {
        EstadoV {
            pantalla: self.pantalla,
            foco: self.foco,
            slicer_foco: self.slicer_foco,
            perfil_idx: self.perfil_idx,
            material_idx: self.material_idx,
            sel_reciente: self.sel_reciente,
            recientes: vista_textos(self.recientes@),
            paleta_3d: self.paleta_3d,
            modo_wire: self.modo_wire,
            auto_rotar: self.auto_rotar,
            confirmar_salida: self.confirmar_salida,
            confirmar_opcion: self.confirmar_opcion,
            slicer_cam_auto: self.slicer_cam_auto,
            slicer_bandeja_solida: self.slicer_bandeja_solida,
            guardado_msg: self.guardado_msg,
            campos: vista_textos(self.campos@),
            slicer_campos: vista_textos(self.slicer_campos@),
            nav: self.nav@,
            hay_modelo: self.hay_modelo,
            hay_stl: self.hay_stl,
        }
    }
}

/// Estado bien formado: índices dentro de rango y una entrada de texto por
/// campo.
pub open spec fn bien_formado(e: EstadoV) -> bool {
    &&& e.foco < NUM_CAMPOS
    &&& e.slicer_foco < NUM_SLICER_CAMPOS
    &&& e.perfil_idx < NUM_PERFILES
    &&& e.material_idx < NUM_MATERIALES
    &&& e.paleta_3d < NUM_PALETAS
    &&& e.modo_wire < NUM_MODOS
    &&& e.campos.len() == NUM_CAMPOS
    &&& e.slicer_campos.len() == NUM_SLICER_CAMPOS
    &&& e.nav.entradas.len() < i32::MAX
}

// ── Edición de un campo ──────────────────────────────────────────────────────

pub open spec fn es_separador(c: char) -> bool {
    c == '.' || c == ','
}

/// El texto ya tiene un separador decimal.
pub open spec fn tiene_separador(v: Seq<char>) -> bool {
    v.contains('.') || v.contains(',')
}

/// Texto de un campo tras escribir `c`: se aceptan dígitos y un único
/// separador decimal (`.` o `,`); lo demás no cambia el texto.
pub open spec fn editar(v: Seq<char>, c: char) -> Seq<char> {
    if es_digito(c) || es_separador(c) {
        if es_separador(c) && tiene_separador(v) {
            v
        } else {
            v.push(c)
        }
    } else {
        v
    }
}

/// Texto de un campo tras borrar su último carácter.
pub open spec fn borrar(v: Seq<char>) -> Seq<char> {
    if v.len() > 0 {
        v.drop_last()
    } else {
        v
    }
}

/// Cantidad de separadores decimales de `v`.
pub open spec fn separadores(v: Seq<char>) -> nat
    decreases v.len(),
{
    if v.len() == 0 {
        0
    } else {
        separadores(v.drop_last()) + if es_separador(v.last()) { 1nat } else { 0nat }
    }
}

/// Campo `i` de `cs` reemplazado por `v`.
pub open spec fn con_campo(cs: Seq<Seq<char>>, i: int, v: Seq<char>) -> Seq<Seq<char>> {
    cs.update(i, v)
}

// ── Transiciones ─────────────────────────────────────────────────────────────

pub open spec fn es_char(t: Tecla, c: char) -> bool {
    t == Tecla::Char(c)
}

/// Explorador de archivos.
pub open spec fn tecla_archivos(e: EstadoV, t: Tecla) -> (EstadoV, EfectoV) {
    if t == Tecla::Esc || es_char(t, 'q') {
        (EstadoV { pantalla: Pantalla::Principal, ..e }, EfectoV::Ninguno)
    } else if t == Tecla::Arriba || t == Tecla::BackTab {
        (EstadoV { nav: NavV { seleccion: mover_spec(e.nav, -1i32), ..e.nav }, ..e }, EfectoV::Ninguno)
    } else if t == Tecla::Abajo || t == Tecla::Tab {
        (EstadoV { nav: NavV { seleccion: mover_spec(e.nav, 1i32), ..e.nav }, ..e }, EfectoV::Ninguno)
    } else if t == Tecla::Izquierda {
        subir_spec(e)
    } else if t == Tecla::Derecha || t == Tecla::Enter {
        let (n, a) = confirmar_spec(e.nav);
        (EstadoV { nav: n, ..e }, match a {
            AccionV::Nada => EfectoV::Ninguno,
            AccionV::Recargar => EfectoV::RecargarDirectorio,
            AccionV::Abrir(r) => EfectoV::AbrirArchivo(r),
        })
    } else if t == Tecla::Retroceso {
        if e.nav.filtro.len() == 0 {
            subir_spec(e)
        } else {
            (EstadoV { nav: NavV { filtro: e.nav.filtro.drop_last(), ..e.nav }, ..e }, EfectoV::Ninguno)
        }
    } else {
        match t {
            Tecla::Char(c) => {
                let n1 = NavV { filtro: e.nav.filtro.push(c), ..e.nav };
                let ids = filtradas_spec(n1);
                let n2 = if ids.len() > 0 { NavV { seleccion: ids[0], ..n1 } } else { n1 };
                (EstadoV { nav: n2, ..e }, EfectoV::Ninguno)
            },
            _ => (e, EfectoV::Ninguno),
        }
    }
}

pub open spec fn subir_spec(e: EstadoV) -> (EstadoV, EfectoV) {
    if e.nav.directorio.len() > 0 {
        (
            EstadoV { nav: con_directorio(e.nav, e.nav.directorio.drop_last()), ..e },
            EfectoV::RecargarDirectorio,
        )
    } else {
        (e, EfectoV::Ninguno)
    }
}

/// Vista 3D: flechas, `j`/`k` giran; `+`/`=` y `-` acercan y alejan; `c`
/// cambia de paleta; `w` de modo; `r` reinicia; cualquier otra tecla cierra.
pub open spec fn tecla_vista(e: EstadoV, t: Tecla) -> (EstadoV, EfectoV) {
    let quieto = EstadoV { auto_rotar: false, ..e };
    if t == Tecla::Izquierda {
        (quieto, EfectoV::GirarVista { eje: Eje::Y, sentido: -1i8 })
    } else if t == Tecla::Derecha {
        (quieto, EfectoV::GirarVista { eje: Eje::Y, sentido: 1 })
    } else if t == Tecla::Arriba {
        (quieto, EfectoV::GirarVista { eje: Eje::X, sentido: -1i8 })
    } else if t == Tecla::Abajo {
        (quieto, EfectoV::GirarVista { eje: Eje::X, sentido: 1 })
    } else if es_char(t, '+') || es_char(t, '=') {
        (quieto, EfectoV::ZoomVista(true))
    } else if es_char(t, '-') {
        (quieto, EfectoV::ZoomVista(false))
    } else if es_char(t, 'j') {
        (quieto, EfectoV::GirarVista { eje: Eje::Z, sentido: -1i8 })
    } else if es_char(t, 'k') {
        (quieto, EfectoV::GirarVista { eje: Eje::Z, sentido: 1 })
    } else if es_char(t, 'c') {
        (EstadoV { paleta_3d: ((e.paleta_3d + 1) % (NUM_PALETAS as int)) as u8, ..e }, EfectoV::Ninguno)
    } else if es_char(t, 'w') {
        (EstadoV { modo_wire: ((e.modo_wire + 1) % (NUM_MODOS as int)) as u8, ..e }, EfectoV::Ninguno)
    } else if es_char(t, 'r') {
        (EstadoV { auto_rotar: true, ..e }, EfectoV::ReiniciarVista)
    } else {
        (EstadoV { pantalla: Pantalla::Principal, ..e }, EfectoV::Ninguno)
    }
}

/// Lista de recientes: flechas mueven la selección; Enter abre.
pub open spec fn tecla_recientes(e: EstadoV, t: Tecla) -> (EstadoV, EfectoV) {
    if t == Tecla::Esc || es_char(t, 'q') {
        (EstadoV { pantalla: Pantalla::Principal, ..e }, EfectoV::Ninguno)
    } else if t == Tecla::Arriba || t == Tecla::BackTab {
        (EstadoV { sel_reciente: if e.sel_reciente > 0 { (e.sel_reciente - 1) as usize } else { 0 }, ..e }, EfectoV::Ninguno)
    } else if t == Tecla::Abajo || t == Tecla::Tab {
        let max = if e.recientes.len() > 0 { e.recientes.len() - 1 } else { 0 };
        (EstadoV { sel_reciente: if e.sel_reciente < max { (e.sel_reciente + 1) as usize } else { e.sel_reciente }, ..e }, EfectoV::Ninguno)
    } else if t == Tecla::Enter {
        if e.sel_reciente < e.recientes.len() {
            (e, EfectoV::AbrirReciente(e.recientes[e.sel_reciente as int]))
        } else {
            (e, EfectoV::Ninguno)
        }
    } else {
        (e, EfectoV::Ninguno)
    }
}

/// Texto del campo del slicer con foco tras escribir/borrar/limpiar.
pub open spec fn con_slicer_campo(e: EstadoV, v: Seq<char>) -> EstadoV {
    EstadoV { slicer_campos: con_campo(e.slicer_campos, e.slicer_foco as int, v), ..e }
}

pub open spec fn con_campo_principal(e: EstadoV, v: Seq<char>) -> EstadoV {
    EstadoV { campos: con_campo(e.campos, e.foco as int, v), ..e }
}

/// Slicer: navegación de campos, acciones, posición del objeto (Shift +
/// flechas), giro y escala (Control + flechas), cámara y edición de campos.
pub open spec fn tecla_slicer(e: EstadoV, t: Tecla, m: u8) -> (EstadoV, EfectoV) {
    let v = e.slicer_campos[e.slicer_foco as int];
    if t == Tecla::Esc || es_char(t, 'q') {
        (EstadoV { pantalla: Pantalla::Principal, ..e }, EfectoV::Ninguno)
    } else if t == Tecla::Tab || (t == Tecla::Abajo && m == 0) {
        (EstadoV { slicer_foco: ((e.slicer_foco + 1) % (NUM_SLICER_CAMPOS as int)) as usize, ..e }, EfectoV::Ninguno)
    } else if t == Tecla::BackTab || (t == Tecla::Arriba && m == 0) {
        (EstadoV { slicer_foco: ((e.slicer_foco + NUM_SLICER_CAMPOS - 1) % (NUM_SLICER_CAMPOS as int)) as usize, ..e }, EfectoV::Ninguno)
    } else if t == Tecla::Enter {
        (e, EfectoV::EjecutarSlicer)
    } else if es_char(t, 'g') {
        (e, EfectoV::GuardarGcode)
    } else if m == MOD_SHIFT && t == Tecla::Izquierda {
        (e, EfectoV::MoverObjeto { dx: -1i8, dy: 0 })
    } else if m == MOD_SHIFT && t == Tecla::Derecha {
        (e, EfectoV::MoverObjeto { dx: 1, dy: 0 })
    } else if m == MOD_SHIFT && t == Tecla::Arriba {
        (e, EfectoV::MoverObjeto { dx: 0, dy: 1 })
    } else if m == MOD_SHIFT && t == Tecla::Abajo {
        (e, EfectoV::MoverObjeto { dx: 0, dy: -1i8 })
    } else if m == MOD_CONTROL && t == Tecla::Izquierda {
        (e, EfectoV::GirarObjeto(-1i8))
    } else if m == MOD_CONTROL && t == Tecla::Derecha {
        (e, EfectoV::GirarObjeto(1))
    } else if m == MOD_CONTROL && t == Tecla::Arriba {
        (e, EfectoV::EscalarObjeto(true))
    } else if m == MOD_CONTROL && t == Tecla::Abajo {
        (e, EfectoV::EscalarObjeto(false))
    } else if m == MOD_CONTROL && es_char(t, '0') {
        (e, EfectoV::ReiniciarTransformacion)
    } else if es_char(t, 'j') {
        (EstadoV { slicer_cam_auto: false, ..e }, EfectoV::MoverCamara { eje: Eje::Y, sentido: -1i8 })
    } else if es_char(t, 'k') {
        (EstadoV { slicer_cam_auto: false, ..e }, EfectoV::MoverCamara { eje: Eje::Y, sentido: 1 })
    } else if es_char(t, 'u') {
        (EstadoV { slicer_cam_auto: false, ..e }, EfectoV::MoverCamara { eje: Eje::X, sentido: -1i8 })
    } else if es_char(t, 'n') {
        (EstadoV { slicer_cam_auto: false, ..e }, EfectoV::MoverCamara { eje: Eje::X, sentido: 1 })
    } else if es_char(t, ' ') {
        (EstadoV { slicer_cam_auto: !e.slicer_cam_auto, ..e }, EfectoV::Ninguno)
    } else if es_char(t, 'b') {
        (EstadoV { slicer_bandeja_solida: !e.slicer_bandeja_solida, ..e }, EfectoV::Ninguno)
    } else if es_char(t, '+') || es_char(t, '=') {
        (e, EfectoV::ZoomSlicer(true))
    } else if es_char(t, '-') {
        (e, EfectoV::ZoomSlicer(false))
    } else if es_char(t, 'r') {
        (con_slicer_campo(e, Seq::empty()), EfectoV::Ninguno)
    } else if t == Tecla::Retroceso {
        (con_slicer_campo(e, borrar(v)), EfectoV::Ninguno)
    } else {
        match t {
            Tecla::Char(c) => (con_slicer_campo(e, editar(v, c)), EfectoV::Ninguno),
            _ => (e, EfectoV::Ninguno),
        }
    }
}

/// Cuenta regresiva del aviso de cotización guardada.
pub open spec fn aviso_tras(g: Option<u8>) -> Option<u8> {
    match g {
        Some(n) => if n <= 1 { None } else { Some((n - 1) as u8) },
        None => None,
    }
}

/// Pantalla principal: navegación de campos, perfiles, materiales, apertura
/// de las demás pantallas y edición del campo con foco.
pub open spec fn tecla_principal(e0: EstadoV, t: Tecla) -> (EstadoV, EfectoV) {
    tecla_principal_tras_aviso(EstadoV { guardado_msg: aviso_tras(e0.guardado_msg), ..e0 }, t)
}

/// La pantalla principal, una vez descontado el aviso.
pub open spec fn tecla_principal_tras_aviso(e: EstadoV, t: Tecla) -> (EstadoV, EfectoV) {
    let v = e.campos[e.foco as int];
    if t == Tecla::Tab || t == Tecla::Abajo {
        (EstadoV { foco: ((e.foco + 1) % (NUM_CAMPOS as int)) as usize, ..e }, EfectoV::Ninguno)
    } else if t == Tecla::BackTab || t == Tecla::Arriba {
        (EstadoV { foco: ((e.foco + NUM_CAMPOS - 1) % (NUM_CAMPOS as int)) as usize, ..e }, EfectoV::Ninguno)
    } else if es_char(t, 'p') {
        (EstadoV { perfil_idx: ((e.perfil_idx + 1) % (NUM_PERFILES as int)) as usize, ..e }, EfectoV::AplicarPerfil)
    } else if es_char(t, 'm') {
        (EstadoV { material_idx: ((e.material_idx + 1) % (NUM_MATERIALES as int)) as usize, ..e }, EfectoV::AplicarMaterial)
    } else if es_char(t, 'f') {
        (EstadoV { sel_reciente: 0, pantalla: Pantalla::Recientes, ..e }, EfectoV::Ninguno)
    } else if es_char(t, 's') {
        (EstadoV { guardado_msg: Some(PASOS_AVISO), ..e }, EfectoV::GuardarCotizacion)
    } else if es_char(t, 'h') {
        (EstadoV { pantalla: Pantalla::Historial, ..e }, EfectoV::Ninguno)
    } else if es_char(t, '?') {
        (EstadoV { pantalla: Pantalla::Ayuda, ..e }, EfectoV::Ninguno)
    } else if es_char(t, 'a') {
        (EstadoV { pantalla: Pantalla::Archivos, nav: NavV { filtro: Seq::empty(), error: None, ..e.nav }, ..e }, EfectoV::Ninguno)
    } else if es_char(t, 'v') && e.hay_modelo {
        (EstadoV { pantalla: Pantalla::Vista3D, ..e }, EfectoV::Ninguno)
    } else if es_char(t, 'x') && e.hay_stl {
        (EstadoV { pantalla: Pantalla::Slicer, slicer_cam_auto: true, ..e }, EfectoV::AbrirSlicer)
    } else if es_char(t, 'r') {
        (con_campo_principal(e, Seq::empty()), EfectoV::Ninguno)
    } else if t == Tecla::Retroceso {
        (con_campo_principal(e, borrar(v)), EfectoV::Ninguno)
    } else {
        match t {
            Tecla::Char(c) => (con_campo_principal(e, editar(v, c)), EfectoV::Ninguno),
            _ => (e, EfectoV::Ninguno),
        }
    }
}

/// Respuesta de la pantalla activa a una tecla.
pub open spec fn manejar_spec(e: EstadoV, t: Tecla, m: u8) -> (EstadoV, EfectoV) {
    match e.pantalla {
        Pantalla::Archivos => tecla_archivos(e, t),
        Pantalla::Vista3D => tecla_vista(e, t),
        Pantalla::Historial => (EstadoV { pantalla: Pantalla::Principal, ..e }, EfectoV::Ninguno),
        Pantalla::Ayuda => (EstadoV { pantalla: Pantalla::Principal, ..e }, EfectoV::Ninguno),
        Pantalla::Recientes => tecla_recientes(e, t),
        Pantalla::Slicer => tecla_slicer(e, t, m),
        Pantalla::Principal => tecla_principal(e, t),
    }
}

/// Respuesta completa a una tecla: primero el diálogo de salida (si está
/// abierto), después Control+C (salir guardando), después `q`/Esc en la
/// pantalla principal (abre el diálogo) y por último la pantalla activa.
pub open spec fn tecla_spec(e: EstadoV, t: Tecla, m: u8) -> (EstadoV, EfectoV) {
    if e.confirmar_salida {
        if t == Tecla::Izquierda || t == Tecla::Derecha || t == Tecla::Tab || t == Tecla::BackTab {
            (EstadoV { confirmar_opcion: !e.confirmar_opcion, ..e }, EfectoV::Ninguno)
        } else if t == Tecla::Enter {
            if e.confirmar_opcion {
                (e, EfectoV::Salir { guardar: true })
            } else {
                (EstadoV { confirmar_salida: false, confirmar_opcion: false, ..e }, EfectoV::Ninguno)
            }
        } else if t == Tecla::Esc {
            (EstadoV { confirmar_salida: false, confirmar_opcion: false, ..e }, EfectoV::Ninguno)
        } else {
            (e, EfectoV::Ninguno)
        }
    } else if es_char(t, 'c') && m == MOD_CONTROL {
        (e, EfectoV::Salir { guardar: true })
    } else if (es_char(t, 'q') || t == Tecla::Esc) && e.pantalla == Pantalla::Principal {
        (EstadoV { confirmar_salida: true, confirmar_opcion: false, ..e }, EfectoV::Ninguno)
    } else {
        manejar_spec(e, t, m)
    }
}

/// Texto de un campo tras cargar el valor `n` de un perfil: su escritura
/// decimal si es positivo; si no (perfil personalizado), queda como estaba.
pub open spec fn si_positivo(v: Seq<char>, n: u32) -> Seq<char> {
    if n > 0 {
        decimal_u32(n as nat)
    } else {
        v
    }
}

/// Campos de la calculadora tras aplicar un perfil de impresora.
pub open spec fn perfil_aplicado(cs: Seq<Seq<char>>, watts: u32, costo: u32, vida: u32, mant: u32) -> Seq<Seq<char>> {
    cs.update(F_WATTS as int, si_positivo(cs[F_WATTS as int], watts)).update(
        F_COSTO_IMP as int,
        si_positivo(cs[F_COSTO_IMP as int], costo),
    ).update(F_VIDA as int, si_positivo(cs[F_VIDA as int], vida)).update(
        F_MANT as int,
        si_positivo(cs[F_MANT as int], mant),
    )
}

// ── Leyes ────────────────────────────────────────────────────────────────────

proof fn lema_bf_archivos(e: EstadoV, t: Tecla)
    requires
        bien_formado(e),
    ensures
        bien_formado(tecla_archivos(e, t).0),
        tecla_archivos(e, t).0.campos == e.campos,
        tecla_archivos(e, t).0.slicer_campos == e.slicer_campos,
{
}

proof fn lema_bf_vista(e: EstadoV, t: Tecla)
    requires
        bien_formado(e),
    ensures
        bien_formado(tecla_vista(e, t).0),
        tecla_vista(e, t).0.campos == e.campos,
        tecla_vista(e, t).0.slicer_campos == e.slicer_campos,
{
}

proof fn lema_bf_recientes(e: EstadoV, t: Tecla)
    requires
        bien_formado(e),
    ensures
        bien_formado(tecla_recientes(e, t).0),
        tecla_recientes(e, t).0.campos == e.campos,
        tecla_recientes(e, t).0.slicer_campos == e.slicer_campos,
{
}

proof fn lema_bf_slicer(e: EstadoV, t: Tecla, m: u8)
    requires
        bien_formado(e),
    ensures
        bien_formado(tecla_slicer(e, t, m).0),
        tecla_slicer(e, t, m).0.campos == e.campos,
        tecla_slicer(e, t, m).0.slicer_foco == e.slicer_foco || tecla_slicer(e, t, m).0.slicer_campos == e.slicer_campos,
        tecla_slicer(e, t, m).0.slicer_campos == e.slicer_campos || tecla_slicer(e, t, m).0.slicer_campos == e.slicer_campos.update(
            e.slicer_foco as int,
            tecla_slicer(e, t, m).0.slicer_campos[e.slicer_foco as int],
        ),
{
}

proof fn lema_bf_principal(e: EstadoV, t: Tecla)
    requires
        bien_formado(e),
    ensures
        bien_formado(tecla_principal(e, t).0),
        tecla_principal(e, t).0.slicer_campos == e.slicer_campos,
        tecla_principal(e, t).0.foco == e.foco || tecla_principal(e, t).0.campos == e.campos,
        tecla_principal(e, t).0.campos == e.campos || tecla_principal(e, t).0.campos == e.campos.update(
            e.foco as int,
            tecla_principal(e, t).0.campos[e.foco as int],
        ),
{
}

/// Toda tecla conserva el buen formado del estado.
pub proof fn ley_tecla_conserva_bien_formado(e: EstadoV, t: Tecla, m: u8)
    requires
        bien_formado(e),
    ensures
        bien_formado(tecla_spec(e, t, m).0),
{
    lema_bf_archivos(e, t);
    lema_bf_vista(e, t);
    lema_bf_recientes(e, t);
    lema_bf_slicer(e, t, m);
    lema_bf_principal(e, t);
}

/// En la vista 3D (sin el diálogo de salida abierto), `+` y `=` acercan y
/// `-` aleja; las flechas giran alrededor de Y (izquierda/derecha) y de X
/// (arriba/abajo), y `j`/`k` alrededor de Z, con sentido negativo para
/// izquierda, arriba y `j`. Ninguna de esas teclas cierra la vista, y todas
/// detienen el giro automático.
pub proof fn ley_teclas_vista_3d(e: EstadoV, m: u8)
    requires
        e.pantalla == Pantalla::Vista3D,
        !e.confirmar_salida,
    ensures
        tecla_spec(e, Tecla::Char('+'), m).1 == EfectoV::ZoomVista(true),
        tecla_spec(e, Tecla::Char('='), m).1 == EfectoV::ZoomVista(true),
        tecla_spec(e, Tecla::Char('-'), m).1 == EfectoV::ZoomVista(false),
        tecla_spec(e, Tecla::Izquierda, m).1 == (EfectoV::GirarVista { eje: Eje::Y, sentido: -1i8 }),
        tecla_spec(e, Tecla::Derecha, m).1 == (EfectoV::GirarVista { eje: Eje::Y, sentido: 1i8 }),
        tecla_spec(e, Tecla::Arriba, m).1 == (EfectoV::GirarVista { eje: Eje::X, sentido: -1i8 }),
        tecla_spec(e, Tecla::Abajo, m).1 == (EfectoV::GirarVista { eje: Eje::X, sentido: 1i8 }),
        tecla_spec(e, Tecla::Char('j'), m).1 == (EfectoV::GirarVista { eje: Eje::Z, sentido: -1i8 }),
        tecla_spec(e, Tecla::Char('k'), m).1 == (EfectoV::GirarVista { eje: Eje::Z, sentido: 1i8 }),
        forall|t: Tecla|
            #![trigger tecla_spec(e, t, m)]
            t == Tecla::Char('+') || t == Tecla::Char('=') || t == Tecla::Char('-') || t == Tecla::Izquierda
                || t == Tecla::Derecha || t == Tecla::Arriba || t == Tecla::Abajo || t == Tecla::Char('j') || t
                == Tecla::Char('k') ==> tecla_spec(e, t, m).0 == (EstadoV { auto_rotar: false, ..e }),
{
}

/// En la vista 3D (sin el diálogo de salida abierto): `c` pasa a la paleta
/// siguiente y `w` al modo de dibujo siguiente (volviendo al primero tras el
/// último), `r` reinicia la vista y vuelve a girar sola, y cualquier tecla
/// que la vista no usa la cierra y vuelve a la pantalla principal; Control+C
/// sale guardando.
pub proof fn ley_otras_teclas_vista_3d(e: EstadoV, t: Tecla, m: u8)
    requires
        e.pantalla == Pantalla::Vista3D,
        !e.confirmar_salida,
    ensures
        m != MOD_CONTROL ==> tecla_spec(e, Tecla::Char('c'), m) == (
        EstadoV { paleta_3d: ((e.paleta_3d + 1) % 5) as u8, ..e },
        EfectoV::Ninguno,
        ),
        m == MOD_CONTROL ==> tecla_spec(e, Tecla::Char('c'), m) == (e, EfectoV::Salir { guardar: true }),
        tecla_spec(e, Tecla::Char('w'), m) == (EstadoV { modo_wire: ((e.modo_wire + 1) % 3) as u8, ..e }, EfectoV::Ninguno),
        tecla_spec(e, Tecla::Char('r'), m) == (EstadoV { auto_rotar: true, ..e }, EfectoV::ReiniciarVista),
        !(t == Tecla::Char('+') || t == Tecla::Char('=') || t == Tecla::Char('-') || t == Tecla::Izquierda || t
            == Tecla::Derecha || t == Tecla::Arriba || t == Tecla::Abajo || t == Tecla::Char('j') || t == Tecla::Char(
            'k',
        ) || t == Tecla::Char('c') || t == Tecla::Char('w') || t == Tecla::Char('r')) ==> tecla_spec(e, t, m) == (
        EstadoV { pantalla: Pantalla::Principal, ..e },
        EfectoV::Ninguno,
        ),
{
}

proof fn lema_separadores(v: Seq<char>)
    ensures
        tiene_separador(v) <==> separadores(v) > 0,
    decreases v.len(),
{
    if v.len() > 0 {
        let d = v.drop_last();
        lema_separadores(d);
        if tiene_separador(d) {
            if d.contains('.') {
                let k = choose|k: int| 0 <= k < d.len() && d[k] == '.';
                assert(v[k] == '.');
            } else {
                let k = choose|k: int| 0 <= k < d.len() && d[k] == ',';
                assert(v[k] == ',');
            }
        }
        if es_separador(v.last()) {
            assert(v[v.len() - 1] == v.last());
        }
        if tiene_separador(v) && !es_separador(v.last()) {
            if v.contains('.') {
                let k = choose|k: int| 0 <= k < v.len() && v[k] == '.';
                assert(d[k] == '.');
            } else {
                let k = choose|k: int| 0 <= k < v.len() && v[k] == ',';
                assert(d[k] == ',');
            }
        }
    }
}

/// Escribir en un campo nunca deja dos separadores decimales, y borrar no
/// los agrega.
pub proof fn ley_un_separador(v: Seq<char>, c: char)
    requires
        separadores(v) <= 1,
    ensures
        separadores(editar(v, c)) <= 1,
        separadores(borrar(v)) <= 1,
{
    lema_separadores(v);
    if (es_digito(c) || es_separador(c)) && !(es_separador(c) && tiene_separador(v)) {
        assert(v.push(c).drop_last() =~= v);
    }
}

proof fn lema_sep_slicer(e: EstadoV, t: Tecla, m: u8)
    requires
        bien_formado(e),
        separadores(e.slicer_campos[e.slicer_foco as int]) <= 1,
    ensures
        separadores(tecla_slicer(e, t, m).0.slicer_campos[e.slicer_foco as int]) <= 1,
{
    let v = e.slicer_campos[e.slicer_foco as int];
    match t {
        Tecla::Char(c) => ley_un_separador(v, c),
        _ => ley_un_separador(v, ' '),
    }
    assert(separadores(Seq::<char>::empty()) == 0);
}

proof fn lema_sep_principal(e: EstadoV, t: Tecla)
    requires
        bien_formado(e),
        separadores(e.campos[e.foco as int]) <= 1,
    ensures
        separadores(tecla_principal(e, t).0.campos[e.foco as int]) <= 1,
{
    let v = e.campos[e.foco as int];
    match t {
        Tecla::Char(c) => ley_un_separador(v, c),
        _ => ley_un_separador(v, ' '),
    }
    assert(separadores(Seq::<char>::empty()) == 0);
}

proof fn lema_campos_un_separador(cs: Seq<Seq<char>>, r: Seq<Seq<char>>, i: int)
    requires
        forall|k: int| 0 <= k < cs.len() ==> separadores(#[trigger] cs[k]) <= 1,
        r == cs || (0 <= i < cs.len() && r == cs.update(i, r[i]) && separadores(r[i]) <= 1),
    ensures
        forall|k: int| 0 <= k < r.len() ==> separadores(#[trigger] r[k]) <= 1,
{
    assert forall|k: int| 0 <= k < r.len() implies separadores(#[trigger] r[k]) <= 1 by {
        if r != cs && k != i {
            assert(r[k] == cs[k]);
        }
    }
}

/// Con todos los campos con a lo sumo un separador decimal, cualquier tecla
/// los deja igual.
pub proof fn ley_tecla_un_separador(e: EstadoV, t: Tecla, m: u8)
    requires
        bien_formado(e),
        forall|i: int| 0 <= i < e.campos.len() ==> separadores(#[trigger] e.campos[i]) <= 1,
        forall|i: int| 0 <= i < e.slicer_campos.len() ==> separadores(#[trigger] e.slicer_campos[i]) <= 1,
    ensures
        forall|i: int| 0 <= i < tecla_spec(e, t, m).0.campos.len() ==> separadores(#[trigger] tecla_spec(e, t, m).0.campos[i]) <= 1,
        forall|i: int| 0 <= i < tecla_spec(e, t, m).0.slicer_campos.len() ==> separadores(#[trigger] tecla_spec(e, t, m).0.slicer_campos[i]) <= 1,
{
    let r = tecla_spec(e, t, m).0;
    let f = e.foco as int;
    let g = e.slicer_foco as int;
    lema_bf_archivos(e, t);
    lema_bf_vista(e, t);
    lema_bf_recientes(e, t);
    lema_bf_slicer(e, t, m);
    lema_bf_principal(e, t);
    lema_sep_slicer(e, t, m);
    lema_sep_principal(e, t);
    assert(r.campos == e.campos || (r.campos == e.campos.update(f, r.campos[f]) && separadores(r.campos[f]) <= 1));
    assert(r.slicer_campos == e.slicer_campos || (r.slicer_campos == e.slicer_campos.update(g, r.slicer_campos[g])
        && separadores(r.slicer_campos[g]) <= 1));
    lema_campos_un_separador(e.campos, r.campos, f);
    lema_campos_un_separador(e.slicer_campos, r.slicer_campos, g);
}

// ── Código ───────────────────────────────────────────────────────────────────

fn contiene_char(s: &Vec<char>, c: char) -> (r: bool)
    ensures
        r == s@.contains(c),
{
    let mut i: usize = 0;
    while i < s.len()
        invariant
            i <= s.len(),
            forall|k: int| 0 <= k < i ==> s@[k] != c,
        decreases s.len() - i,
    {
        if s[i] == c {
            assert(s@[i as int] == c);
            return true;
        }
        i = i + 1;
    }
    false
}

/// Aplica al texto `v` la tecla de carácter `c` (ver `editar`).
pub fn editar_exec(v: &mut String, c: char)
    ensures
        final(v)@ == editar(old(v)@, c),
{
    let es_sep = c == '.' || c == ',';
    if ('0' <= c && c <= '9') || es_sep {
        let cs = crate::texto::chars_de(v.as_str());
        if es_sep && (contiene_char(&cs, '.') || contiene_char(&cs, ',')) {
            return;
        }
        empujar(v, c);
    }
}

fn borrar_exec(v: &mut String)
    ensures
        final(v)@ == borrar(old(v)@),
{
    quitar_ultimo(v);
}

proof fn lema_vista_textos_update(v: Seq<String>, i: int, s: String)
    requires
        0 <= i < v.len(),
    ensures
        vista_textos(v.update(i, s)) == vista_textos(v).update(i, s@),
{
    assert(vista_textos(v.update(i, s)) =~= vista_textos(v).update(i, s@));
}

/// Modifica el campo `i` de `campos` con `f` (editar, borrar o limpiar).
fn tocar_campo(campos: &mut Vec<String>, i: usize, op: u8, c: char)
    requires
        i < old(campos).len(),
    ensures
        final(campos).len() == old(campos).len(),
        vista_textos(final(campos)@) == vista_textos(old(campos)@).update(
            i as int,
            if op == 0 {
                Seq::empty()
            } else if op == 1 {
                borrar(old(campos)@[i as int]@)
            } else {
                editar(old(campos)@[i as int]@, c)
            },
        ),
{
    let mut s = campos[i].clone();
    if op == 0 {
        s = String::new();
    } else if op == 1 {
        borrar_exec(&mut s);
    } else {
        editar_exec(&mut s, c);
    }
    let ghost v0 = campos@;
    campos.set(i, s);
    proof {
        lema_vista_textos_update(v0, i as int, s);
    }
}

/// Escritura decimal de `n` en un texto nuevo.
fn decimal_texto(n: u32) -> (r: String)
    ensures
        r@ == decimal_u32(n as nat),
{
    let mut r = String::new();
    escribir_u32(&mut r, n);
    assert(r@ =~= decimal_u32(n as nat));
    r
}

/// Reemplaza el texto del campo `i`.
fn poner_campo(campos: &mut Vec<String>, i: usize, s: String)
    requires
        i < old(campos).len(),
    ensures
        final(campos)@.len() == old(campos)@.len(),
        vista_textos(final(campos)@) == vista_textos(old(campos)@).update(i as int, s@),
{
    let ghost v0 = campos@;
    campos.set(i, s);
    proof {
        lema_vista_textos_update(v0, i as int, s);
    }
}

/// Carga en el campo `i` el valor `n` si es positivo.
fn poner_si_positivo(campos: &mut Vec<String>, i: usize, n: u32)
    requires
        i < old(campos).len(),
    ensures
        final(campos)@.len() == old(campos)@.len(),
        vista_textos(final(campos)@) == vista_textos(old(campos)@).update(
            i as int,
            si_positivo(vista_textos(old(campos)@)[i as int], n),
        ),
{
    if n > 0 {
        poner_campo(campos, i, decimal_texto(n));
    } else {
        assert(vista_textos(campos@).update(i as int, vista_textos(campos@)[i as int]) =~= vista_textos(campos@));
    }
}

impl EstadoUi {
    /// Estado inicial: pantalla principal, foco en el primer campo, perfil y
    /// material guardados (acotados al último si se pasan), textos de los
    /// campos tomados de la configuración guardada (los que sobran se
    /// ignoran, los que faltan quedan vacíos), temperaturas del material
    /// elegido en los campos del slicer y el explorador abierto en `nav`.
    pub fn nuevo(
        cfg: &crate::config::AppConfig,
        nav: NavArchivos,
        temp_hotend: u32,
        temp_cama: u32,
    ) -> (r: EstadoUi)
        requires
            nav@.entradas.len() < i32::MAX,
        ensures
            bien_formado(r@),
            r@.pantalla == Pantalla::Principal,
            r@.foco == 0,
            r@.slicer_foco == 0,
            r@.sel_reciente == 0,
            r@.paleta_3d == 0,
            r@.modo_wire == 0,
            !r@.auto_rotar,
            !r@.confirmar_salida,
            !r@.confirmar_opcion,
            !r@.slicer_cam_auto,
            !r@.slicer_bandeja_solida,
            r@.guardado_msg is None,
            r@.perfil_idx == (if cfg.perfil_idx < NUM_PERFILES { cfg.perfil_idx } else { (NUM_PERFILES - 1) as usize }),
            r@.material_idx == (if cfg.material_idx < NUM_MATERIALES { cfg.material_idx } else { (NUM_MATERIALES - 1) as usize }),
            r@.recientes == vista_textos(cfg.recientes@),
            forall|i: int| 0 <= i < NUM_CAMPOS ==> #[trigger] r@.campos[i] == if i < cfg.valores@.len() {
                cfg.valores@[i]@
            } else {
                Seq::empty()
            },
            forall|i: int| 0 <= i < NUM_SLICER_CAMPOS && i != SC_TEMP_HOTEND && i != SC_TEMP_CAMA ==> (#[trigger] r@.slicer_campos[i]).len() == 0,
            r@.slicer_campos[SC_TEMP_HOTEND as int] == decimal_u32(temp_hotend as nat),
            r@.slicer_campos[SC_TEMP_CAMA as int] == decimal_u32(temp_cama as nat),
            r@.nav == nav@,
            !r@.hay_modelo,
            !r@.hay_stl,
    {
        let mut campos: Vec<String> = Vec::new();
        let mut i: usize = 0;
        while i < NUM_CAMPOS
            invariant
                i <= NUM_CAMPOS,
                campos.len() == i,
                forall|k: int| 0 <= k < i ==> #[trigger] campos@[k]@ == if k < cfg.valores@.len() {
                    cfg.valores@[k]@
                } else {
                    Seq::empty()
                },
            decreases NUM_CAMPOS - i,
        {
            if i < cfg.valores.len() {
                campos.push(cfg.valores[i].clone());
            } else {
                campos.push(String::new());
            }
            i = i + 1;
        }
        let mut slicer_campos: Vec<String> = Vec::new();
        let mut j: usize = 0;
        while j < NUM_SLICER_CAMPOS
            invariant
                j <= NUM_SLICER_CAMPOS,
                slicer_campos.len() == j,
                forall|k: int| 0 <= k < j && k != SC_TEMP_HOTEND && k != SC_TEMP_CAMA ==> (#[trigger] slicer_campos@[k])@.len() == 0,
                j > 6 ==> slicer_campos@[6]@ == decimal_u32(temp_hotend as nat),
                j > 7 ==> slicer_campos@[7]@ == decimal_u32(temp_cama as nat),
            decreases NUM_SLICER_CAMPOS - j,
        {
            if j == SC_TEMP_HOTEND {
                slicer_campos.push(decimal_texto(temp_hotend));
            } else if j == SC_TEMP_CAMA {
                slicer_campos.push(decimal_texto(temp_cama));
            } else {
                slicer_campos.push(String::new());
            }
            j = j + 1;
        }
        let mut recientes: Vec<String> = Vec::new();
        let mut k: usize = 0;
        while k < cfg.recientes.len()
            invariant
                k <= cfg.recientes.len(),
                vista_textos(recientes@) =~= vista_textos(cfg.recientes@).take(k as int),
            decreases cfg.recientes.len() - k,
        {
            let ghost r0 = recientes@;
            let t = cfg.recientes[k].clone();
            recientes.push(t);
            assert(vista_textos(recientes@) =~= vista_textos(r0).push(t@));
            assert(vista_textos(cfg.recientes@).take(k + 1) =~= vista_textos(cfg.recientes@).take(k as int).push(cfg.recientes@[k as int]@));
            k = k + 1;
        }
        assert(vista_textos(cfg.recientes@).take(cfg.recientes.len() as int) =~= vista_textos(cfg.recientes@));
        let perfil_idx = if cfg.perfil_idx < NUM_PERFILES { cfg.perfil_idx } else { NUM_PERFILES - 1 };
        let material_idx = if cfg.material_idx < NUM_MATERIALES { cfg.material_idx } else { NUM_MATERIALES - 1 };
        EstadoUi {
            pantalla: Pantalla::Principal,
            foco: 0,
            slicer_foco: 0,
            perfil_idx,
            material_idx,
            sel_reciente: 0,
            recientes,
            paleta_3d: 0,
            modo_wire: 0,
            auto_rotar: false,
            confirmar_salida: false,
            confirmar_opcion: false,
            slicer_cam_auto: false,
            slicer_bandeja_solida: false,
            guardado_msg: None,
            campos,
            slicer_campos,
            nav,
            hay_modelo: false,
            hay_stl: false,
        }
    }

    /// Registra la apertura de `ruta` en la lista de recientes.
    pub fn agregar_reciente(&mut self, ruta: &str)
        ensures
            final(self)@ == (EstadoV { recientes: recientes_tras(old(self)@.recientes, ruta@), ..old(self)@ }),
    {
        agregar_reciente(&mut self.recientes, ruta);
    }

    /// Aplica el perfil de impresora elegido: potencia, costo, vida útil y
    /// mantenimiento por hora pasan a sus campos, salvo los que valen cero.
    pub fn aplicar_perfil(&mut self, watts: u32, costo: u32, vida: u32, mant: u32)
        requires
            bien_formado(old(self)@),
        ensures
            final(self)@ == (EstadoV { campos: perfil_aplicado(old(self)@.campos, watts, costo, vida, mant), ..old(self)@ }),
            bien_formado(final(self)@),
    {
        poner_si_positivo(&mut self.campos, F_WATTS, watts);
        poner_si_positivo(&mut self.campos, F_COSTO_IMP, costo);
        poner_si_positivo(&mut self.campos, F_VIDA, vida);
        poner_si_positivo(&mut self.campos, F_MANT, mant);
    }

    /// Aplica el material elegido: su precio de referencia por kilo va al
    /// campo de precio y sus temperaturas a los campos del slicer.
    pub fn aplicar_material(&mut self, precio_kg: u32, temp_hotend: u32, temp_cama: u32)
        requires
            bien_formado(old(self)@),
        ensures
            final(self)@ == (EstadoV {
                campos: old(self)@.campos.update(F_PRECIO_KG as int, decimal_u32(precio_kg as nat)),
                slicer_campos: old(self)@.slicer_campos.update(SC_TEMP_HOTEND as int, decimal_u32(temp_hotend as nat)).update(
                    SC_TEMP_CAMA as int,
                    decimal_u32(temp_cama as nat),
                ),
                ..old(self)@
            }),
            bien_formado(final(self)@),
    {
        poner_campo(&mut self.campos, F_PRECIO_KG, decimal_texto(precio_kg));
        poner_campo(&mut self.slicer_campos, SC_TEMP_HOTEND, decimal_texto(temp_hotend));
        poner_campo(&mut self.slicer_campos, SC_TEMP_CAMA, decimal_texto(temp_cama));
    }

    fn tecla_archivos_exec(&mut self, t: Tecla) -> (r: Efecto)
        requires
            bien_formado(old(self)@),
        ensures
            (final(self)@, r@) == tecla_archivos(old(self)@, t),
    {
        if t == Tecla::Esc || t == Tecla::Char('q') {
            self.pantalla = Pantalla::Principal;
            Efecto::Ninguno
        } else if t == Tecla::Arriba || t == Tecla::BackTab {
            self.nav.mover(-1);
            Efecto::Ninguno
        } else if t == Tecla::Abajo || t == Tecla::Tab {
            self.nav.mover(1);
            Efecto::Ninguno
        } else if t == Tecla::Izquierda {
            if self.nav.subir() {
                Efecto::RecargarDirectorio
            } else {
                Efecto::Ninguno
            }
        } else if t == Tecla::Derecha || t == Tecla::Enter {
            match self.nav.confirmar() {
                Accion::Nada => Efecto::Ninguno,
                Accion::Recargar => Efecto::RecargarDirectorio,
                Accion::Abrir(r) => Efecto::AbrirArchivo(r),
            }
        } else if t == Tecla::Retroceso {
            if self.nav.retroceso() {
                Efecto::RecargarDirectorio
            } else {
                Efecto::Ninguno
            }
        } else {
            match t {
                Tecla::Char(c) => {
                    self.nav.tipear(c);
                    Efecto::Ninguno
                },
                _ => Efecto::Ninguno,
            }
        }
    }

    fn tecla_vista_exec(&mut self, t: Tecla) -> (r: Efecto)
        requires
            bien_formado(old(self)@),
        ensures
            (final(self)@, r@) == tecla_vista(old(self)@, t),
    {
        if t == Tecla::Izquierda {
            self.auto_rotar = false;
            Efecto::GirarVista { eje: Eje::Y, sentido: -1i8 }
        } else if t == Tecla::Derecha {
            self.auto_rotar = false;
            Efecto::GirarVista { eje: Eje::Y, sentido: 1 }
        } else if t == Tecla::Arriba {
            self.auto_rotar = false;
            Efecto::GirarVista { eje: Eje::X, sentido: -1i8 }
        } else if t == Tecla::Abajo {
            self.auto_rotar = false;
            Efecto::GirarVista { eje: Eje::X, sentido: 1 }
        } else if t == Tecla::Char('+') || t == Tecla::Char('=') {
            self.auto_rotar = false;
            Efecto::ZoomVista(true)
        } else if t == Tecla::Char('-') {
            self.auto_rotar = false;
            Efecto::ZoomVista(false)
        } else if t == Tecla::Char('j') {
            self.auto_rotar = false;
            Efecto::GirarVista { eje: Eje::Z, sentido: -1i8 }
        } else if t == Tecla::Char('k') {
            self.auto_rotar = false;
            Efecto::GirarVista { eje: Eje::Z, sentido: 1 }
        } else if t == Tecla::Char('c') {
            self.paleta_3d = (self.paleta_3d + 1) % NUM_PALETAS;
            Efecto::Ninguno
        } else if t == Tecla::Char('w') {
            self.modo_wire = (self.modo_wire + 1) % NUM_MODOS;
            Efecto::Ninguno
        } else if t == Tecla::Char('r') {
            self.auto_rotar = true;
            Efecto::ReiniciarVista
        } else {
            self.pantalla = Pantalla::Principal;
            Efecto::Ninguno
        }
    }

    fn tecla_recientes_exec(&mut self, t: Tecla) -> (r: Efecto)
        ensures
            (final(self)@, r@) == tecla_recientes(old(self)@, t),
    {
        if t == Tecla::Esc || t == Tecla::Char('q') {
            self.pantalla = Pantalla::Principal;
            Efecto::Ninguno
        } else if t == Tecla::Arriba || t == Tecla::BackTab {
            self.sel_reciente = if self.sel_reciente > 0 { self.sel_reciente - 1 } else { 0 };
            Efecto::Ninguno
        } else if t == Tecla::Abajo || t == Tecla::Tab {
            let max = if self.recientes.len() > 0 { self.recientes.len() - 1 } else { 0 };
            if self.sel_reciente < max {
                self.sel_reciente = self.sel_reciente + 1;
            }
            Efecto::Ninguno
        } else if t == Tecla::Enter {
            if self.sel_reciente < self.recientes.len() {
                Efecto::AbrirReciente(self.recientes[self.sel_reciente].clone())
            } else {
                Efecto::Ninguno
            }
        } else {
            Efecto::Ninguno
        }
    }

    fn tecla_slicer_exec(&mut self, t: Tecla, m: u8) -> (r: Efecto)
        requires
            bien_formado(old(self)@),
        ensures
            (final(self)@, r@) == tecla_slicer(old(self)@, t, m),
    {
        let f = self.slicer_foco;
        if t == Tecla::Esc || t == Tecla::Char('q') {
            self.pantalla = Pantalla::Principal;
            Efecto::Ninguno
        } else if t == Tecla::Tab || (t == Tecla::Abajo && m == 0) {
            self.slicer_foco = (f + 1) % NUM_SLICER_CAMPOS;
            Efecto::Ninguno
        } else if t == Tecla::BackTab || (t == Tecla::Arriba && m == 0) {
            self.slicer_foco = (f + NUM_SLICER_CAMPOS - 1) % NUM_SLICER_CAMPOS;
            Efecto::Ninguno
        } else if t == Tecla::Enter {
            Efecto::EjecutarSlicer
        } else if t == Tecla::Char('g') {
            Efecto::GuardarGcode
        } else if m == MOD_SHIFT && t == Tecla::Izquierda {
            Efecto::MoverObjeto { dx: -1i8, dy: 0 }
        } else if m == MOD_SHIFT && t == Tecla::Derecha {
            Efecto::MoverObjeto { dx: 1, dy: 0 }
        } else if m == MOD_SHIFT && t == Tecla::Arriba {
            Efecto::MoverObjeto { dx: 0, dy: 1 }
        } else if m == MOD_SHIFT && t == Tecla::Abajo {
            Efecto::MoverObjeto { dx: 0, dy: -1i8 }
        } else if m == MOD_CONTROL && t == Tecla::Izquierda {
            Efecto::GirarObjeto(-1i8)
        } else if m == MOD_CONTROL && t == Tecla::Derecha {
            Efecto::GirarObjeto(1)
        } else if m == MOD_CONTROL && t == Tecla::Arriba {
            Efecto::EscalarObjeto(true)
        } else if m == MOD_CONTROL && t == Tecla::Abajo {
            Efecto::EscalarObjeto(false)
        } else if m == MOD_CONTROL && t == Tecla::Char('0') {
            Efecto::ReiniciarTransformacion
        } else if t == Tecla::Char('j') {
            self.slicer_cam_auto = false;
            Efecto::MoverCamara { eje: Eje::Y, sentido: -1i8 }
        } else if t == Tecla::Char('k') {
            self.slicer_cam_auto = false;
            Efecto::MoverCamara { eje: Eje::Y, sentido: 1 }
        } else if t == Tecla::Char('u') {
            self.slicer_cam_auto = false;
            Efecto::MoverCamara { eje: Eje::X, sentido: -1i8 }
        } else if t == Tecla::Char('n') {
            self.slicer_cam_auto = false;
            Efecto::MoverCamara { eje: Eje::X, sentido: 1 }
        } else if t == Tecla::Char(' ') {
            self.slicer_cam_auto = !self.slicer_cam_auto;
            Efecto::Ninguno
        } else if t == Tecla::Char('b') {
            self.slicer_bandeja_solida = !self.slicer_bandeja_solida;
            Efecto::Ninguno
        } else if t == Tecla::Char('+') || t == Tecla::Char('=') {
            Efecto::ZoomSlicer(true)
        } else if t == Tecla::Char('-') {
            Efecto::ZoomSlicer(false)
        } else if t == Tecla::Char('r') {
            tocar_campo(&mut self.slicer_campos, f, 0, ' ');
            Efecto::Ninguno
        } else if t == Tecla::Retroceso {
            tocar_campo(&mut self.slicer_campos, f, 1, ' ');
            Efecto::Ninguno
        } else {
            match t {
                Tecla::Char(c) => {
                    tocar_campo(&mut self.slicer_campos, f, 2, c);
                    Efecto::Ninguno
                },
                _ => Efecto::Ninguno,
            }
        }
    }

    fn tecla_principal_exec(&mut self, t: Tecla) -> (r: Efecto)
        requires
            bien_formado(old(self)@),
        ensures
            (final(self)@, r@) == tecla_principal(old(self)@, t),
    {
        self.guardado_msg = match self.guardado_msg {
            Some(n) => if n <= 1 { None } else { Some(n - 1) },
            None => None,
        };
        self.tecla_principal_resto(t)
    }

    fn tecla_principal_resto(&mut self, t: Tecla) -> (r: Efecto)
        requires
            bien_formado(old(self)@),
        ensures
            (final(self)@, r@) == tecla_principal_tras_aviso(old(self)@, t),
    {
        let f = self.foco;
        if t == Tecla::Tab || t == Tecla::Abajo {
            self.foco = (f + 1) % NUM_CAMPOS;
            Efecto::Ninguno
        } else if t == Tecla::BackTab || t == Tecla::Arriba {
            self.foco = (f + NUM_CAMPOS - 1) % NUM_CAMPOS;
            Efecto::Ninguno
        } else if t == Tecla::Char('p') {
            self.perfil_idx = (self.perfil_idx + 1) % NUM_PERFILES;
            Efecto::AplicarPerfil
        } else if t == Tecla::Char('m') {
            self.material_idx = (self.material_idx + 1) % NUM_MATERIALES;
            Efecto::AplicarMaterial
        } else if t == Tecla::Char('f') {
            self.sel_reciente = 0;
            self.pantalla = Pantalla::Recientes;
            Efecto::Ninguno
        } else if t == Tecla::Char('s') {
            self.guardado_msg = Some(PASOS_AVISO);
            Efecto::GuardarCotizacion
        } else if t == Tecla::Char('h') {
            self.pantalla = Pantalla::Historial;
            Efecto::Ninguno
        } else if t == Tecla::Char('?') {
            self.pantalla = Pantalla::Ayuda;
            Efecto::Ninguno
        } else if t == Tecla::Char('a') {
            self.nav.filtro = String::new();
            self.nav.error = None;
            self.pantalla = Pantalla::Archivos;
            Efecto::Ninguno
        } else if t == Tecla::Char('v') && self.hay_modelo {
            self.pantalla = Pantalla::Vista3D;
            Efecto::Ninguno
        } else if t == Tecla::Char('x') && self.hay_stl {
            self.pantalla = Pantalla::Slicer;
            self.slicer_cam_auto = true;
            Efecto::AbrirSlicer
        } else if t == Tecla::Char('r') {
            tocar_campo(&mut self.campos, f, 0, ' ');
            Efecto::Ninguno
        } else if t == Tecla::Retroceso {
            tocar_campo(&mut self.campos, f, 1, ' ');
            Efecto::Ninguno
        } else {
            match t {
                Tecla::Char(c) => {
                    tocar_campo(&mut self.campos, f, 2, c);
                    Efecto::Ninguno
                },
                _ => Efecto::Ninguno,
            }
        }
    }

    /// Responde a una tecla con modificadores `m` (ver `tecla_spec`).
    pub fn procesar_tecla(&mut self, t: Tecla, m: u8) -> (r: Efecto)
        requires
            bien_formado(old(self)@),
        ensures
            (final(self)@, r@) == tecla_spec(old(self)@, t, m),
    {
        if self.confirmar_salida {
            if t == Tecla::Izquierda || t == Tecla::Derecha || t == Tecla::Tab || t == Tecla::BackTab {
                self.confirmar_opcion = !self.confirmar_opcion;
                Efecto::Ninguno
            } else if t == Tecla::Enter {
                if self.confirmar_opcion {
                    Efecto::Salir { guardar: true }
                } else {
                    self.confirmar_salida = false;
                    self.confirmar_opcion = false;
                    Efecto::Ninguno
                }
            } else if t == Tecla::Esc {
                self.confirmar_salida = false;
                self.confirmar_opcion = false;
                Efecto::Ninguno
            } else {
                Efecto::Ninguno
            }
        } else if t == Tecla::Char('c') && m == MOD_CONTROL {
            Efecto::Salir { guardar: true }
        } else if (t == Tecla::Char('q') || t == Tecla::Esc) && self.pantalla == Pantalla::Principal {
            self.confirmar_salida = true;
            self.confirmar_opcion = false;
            Efecto::Ninguno
        } else {
            match self.pantalla {
                Pantalla::Archivos => self.tecla_archivos_exec(t),
                Pantalla::Vista3D => self.tecla_vista_exec(t),
                Pantalla::Historial => {
                    self.pantalla = Pantalla::Principal;
                    Efecto::Ninguno
                },
                Pantalla::Ayuda => {
                    self.pantalla = Pantalla::Principal;
                    Efecto::Ninguno
                },
                Pantalla::Recientes => self.tecla_recientes_exec(t),
                Pantalla::Slicer => self.tecla_slicer_exec(t, m),
                Pantalla::Principal => self.tecla_principal_exec(t),
            }
        }
    }
}

} // verus!
