# CondorLab — núcleo verificado

Calculadora de costos de impresión 3D y slicer de terminal. La biblioteca
(`src/`) reúne la lógica que se puede probar con Verus; el programa de
terminal (`app/`) la usa para la interfaz, la lectura y escritura de archivos
y todo lo que trabaja con números de punto flotante.

## Biblioteca (`src/`)

- `contorno` — armado de contornos a partir de segmentos sueltos de una capa
  (extremos unidos por su celda de grilla de 1 µm). Leyes: contornos de al
  menos 3 puntos, encadenados, cada segmento usado una vez, cierre sin punto
  repetido; con un polígono cerrado por celda, cada contorno cierra y no se
  pierde ningún segmento.
- `corte` — qué aristas de un triángulo cruzan un plano horizontal.
- `cabecera`, `numeros`, `texto` — lectura de la cabecera de un G-code
  (slicer, tiempo —con segundos en las formas `1h 23m 45s` y `1:23:45`—, filamento, capas,
  temperaturas, altura de capa, relleno) con valores decimales exactos.
  Leyes: sólo cuentan las primeras 300 líneas; las temperaturas que escribe
  el bloque de inicio se leen de vuelta.
- `gcode` — bloques de inicio y fin del G-code generado.
- `config` — rutas de los archivos de estado y lista de archivos recientes.
- `navegador` — explorador de archivos: listado ordenado, filtro, selección,
  ventana visible y navegación de directorios.
- `ui` — estado discreto de la interfaz y su respuesta a cada tecla.

## Programa (`app/`)

Dibuja la interfaz con ratatui, lee teclas con crossterm, lee STL con
stl_io, calcula perímetros con clipper2 y guarda la configuración con
serde_json. Cada tecla pasa por `EstadoUi::procesar_tecla`, que devuelve el
efecto a ejecutar.
