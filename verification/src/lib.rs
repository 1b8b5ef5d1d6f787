//! Núcleo verificado de CondorLab: lectura de cabeceras G-code, armado de
//! contornos de slicing, navegación de archivos y piezas de texto del G-code.

pub mod gcode;
pub mod contorno;
pub mod texto;
pub mod numeros;
pub mod cabecera;
pub mod corte;
pub mod config;
pub mod navegador;
pub mod ui;
