//! Configuración persistente: valores de los campos, perfil y material
//! elegidos, lista de archivos recientes y rutas de los archivos de estado.

use crate::texto::chars_de;
use vstd::prelude::*;
use vstd::string::*;

verus! {

/// Estado que se guarda entre sesiones.
pub struct AppConfig {
    /// Valor (texto) de cada campo de la calculadora.
    pub valores: Vec<String>,
    /// Perfil de impresora elegido.
    pub perfil_idx: usize,
    /// Material elegido.
    pub material_idx: usize,
    /// Archivos abiertos hace poco, del más reciente al más viejo.
    pub recientes: Vec<String>,
}

pub open spec fn vista_textos(v: Seq<String>) -> Seq<Seq<char>> {
    v.map_values(|s: String| s@)
}

impl Default for AppConfig {
    fn default() -> (r: AppConfig)
        ensures
            r.valores@.len() == 0,
            r.perfil_idx == 0,
            r.material_idx == 0,
            r.recientes@.len() == 0,
    {
        AppConfig { valores: Vec::new(), perfil_idx: 0, material_idx: 0, recientes: Vec::new() }
    }
}

// ── Rutas ────────────────────────────────────────────────────────────────────

/// `dir` unido con `nombre` como lo hace `PathBuf::join` con un nombre
/// relativo: se agrega `/` salvo que `dir` esté vacío o ya termine en `/`.
pub open spec fn unir_ruta(dir: Seq<char>, nombre: Seq<char>) -> Seq<char> {
    if dir.len() == 0 {
        nombre
    } else if dir.last() == '/' {
        dir + nombre
    } else {
        dir + seq!['/'] + nombre
    }
}

fn unir(dir: &str, nombre: &str) -> (r: String)
    ensures
        r@ == unir_ruta(dir@, nombre@),
{
    let d = chars_de(dir);
    let mut r = String::new();
    if d.len() == 0 {
        r.append(nombre);
    } else if d[d.len() - 1] == '/' {
        r.append(dir);
        r.append(nombre);
    } else {
        r.append(dir);
        r.append("/");
        proof {
            reveal_strlit("/");
        }
        r.append(nombre);
    }
    assert(r@ =~= unir_ruta(dir@, nombre@));
    r
}

/// Ruta del archivo de configuración dentro del directorio `config_dir`.
pub fn config_path(config_dir: &str) -> (r: String)
    ensures
        r@ == unir_ruta(config_dir@, "config.json"@),
{
    unir(config_dir, "config.json")
}

/// Ruta del archivo de historial dentro del directorio `config_dir`.
pub fn historial_path(config_dir: &str) -> (r: String)
    ensures
        r@ == unir_ruta(config_dir@, "historial.json"@),
{
    unir(config_dir, "historial.json")
}

// ── Recientes ────────────────────────────────────────────────────────────────

/// Cantidad máxima de archivos recientes.
pub open spec fn max_recientes() -> int {
    10
}

/// `s` sin las apariciones de `x`, en el mismo orden.
pub open spec fn sin(s: Seq<Seq<char>>, x: Seq<char>) -> Seq<Seq<char>>
    decreases s.len(),
{
    if s.len() == 0 {
        Seq::empty()
    } else {
        let p = sin(s.drop_last(), x);
        if s.last() == x {
            p
        } else {
            p.push(s.last())
        }
    }
}

/// Lista de recientes después de abrir `ruta`: queda primera, sin otras
/// apariciones, y la lista se corta en 10.
pub open spec fn recientes_tras(previos: Seq<Seq<char>>, ruta: Seq<char>) -> Seq<Seq<char>> {
    let l = seq![ruta] + sin(previos, ruta);
    l.take(if l.len() < max_recientes() { l.len() as int } else { max_recientes() })
}

/// Registra la apertura de `ruta` en la lista de recientes.
pub fn agregar_reciente(recientes: &mut Vec<String>, ruta: &str)
    ensures
        vista_textos(final(recientes)@) == recientes_tras(vista_textos(old(recientes)@), ruta@),
{
    let ghost previos = vista_textos(recientes@);
    let mut nueva: Vec<String> = Vec::new();
    let mut primera = String::new();
    primera.append(ruta);
    let clave = primera.clone();
    nueva.push(primera);
    let mut i: usize = 0;
    while i < recientes.len()
        invariant
            i <= recientes.len(),
            previos == vista_textos(recientes@),
            clave@ == ruta@,
            vista_textos(nueva@) =~= seq![ruta@] + sin(previos.take(i as int), ruta@),
        decreases recientes.len() - i,
    {
        let ghost antes = nueva@;
        assert(previos.take(i + 1).drop_last() =~= previos.take(i as int));
        assert(previos.take(i + 1).last() == recientes@[i as int]@);
        assert(sin(previos.take(i + 1), ruta@) == (if recientes@[i as int]@ == ruta@ {
            sin(previos.take(i as int), ruta@)
        } else {
            sin(previos.take(i as int), ruta@).push(recientes@[i as int]@)
        }));
        let igual = recientes[i] == clave;
        if !igual {
            let r = recientes[i].clone();
            nueva.push(r);
            assert(vista_textos(nueva@) =~= vista_textos(antes).push(r@));
        }
        i = i + 1;
    }
    assert(previos.take(recientes.len() as int) =~= previos);
    nueva.truncate(10);
    *recientes = nueva;
}

proof fn lema_sin(s: Seq<Seq<char>>, x: Seq<char>)
    ensures
        forall|j: int| 0 <= j < sin(s, x).len() ==> #[trigger] sin(s, x)[j] != x && s.contains(
            sin(s, x)[j],
        ),
        (forall|a: int, b: int| 0 <= a < b < s.len() ==> s[a] != s[b]) ==> (forall|a: int, b: int|
            0 <= a < b < sin(s, x).len() ==> sin(s, x)[a] != sin(s, x)[b]),
        sin(s, x).len() <= s.len(),
    decreases s.len(),
{
    if s.len() > 0 {
        let d = s.drop_last();
        lema_sin(d, x);
        let p = sin(d, x);
        assert forall|j: int| 0 <= j < sin(s, x).len() implies #[trigger] sin(s, x)[j] != x
            && s.contains(sin(s, x)[j]) by {
            if j < p.len() {
                assert(sin(s, x)[j] == p[j]);
                let k = choose|k: int| 0 <= k < d.len() && d[k] == p[j];
                assert(s[k] == d[k]);
            } else {
                assert(s[s.len() - 1] == s.last());
            }
        }
        if forall|a: int, b: int| 0 <= a < b < s.len() ==> s[a] != s[b] {
            assert(forall|a: int, b: int| 0 <= a < b < d.len() ==> d[a] != d[b]) by {
                assert forall|a: int, b: int| 0 <= a < b < d.len() implies d[a] != d[b] by {
                    assert(d[a] == s[a] && d[b] == s[b]);
                }
            }
            if s.last() != x {
                assert forall|a: int, b: int| 0 <= a < b < sin(s, x).len() implies sin(s, x)[a]
                    != sin(s, x)[b] by {
                    if b == p.len() {
                        assert(sin(s, x)[a] == p[a]);
                        assert(d.contains(p[a]));
                        let k = choose|k: int| 0 <= k < d.len() && d[k] == p[a];
                        assert(s[k] == d[k]);
                        assert(s[k] != s[s.len() - 1]);
                    } else {
                        assert(sin(s, x)[a] == p[a] && sin(s, x)[b] == p[b]);
                    }
                }
            }
        }
    }
}

/// Tras abrir `ruta`, queda primera en la lista, que tiene a lo sumo 10
/// entradas; si la lista no tenía repetidos, sigue sin tenerlos; y toda
/// entrada es `ruta` o ya estaba en la lista.
pub proof fn ley_recientes(previos: Seq<Seq<char>>, ruta: Seq<char>)
    ensures
        recientes_tras(previos, ruta).len() >= 1,
        recientes_tras(previos, ruta)[0] == ruta,
        recientes_tras(previos, ruta).len() <= max_recientes(),
        forall|j: int| 1 <= j < recientes_tras(previos, ruta).len() ==> #[trigger] recientes_tras(
            previos,
            ruta,
        )[j] != ruta && previos.contains(recientes_tras(previos, ruta)[j]),
        (forall|a: int, b: int| 0 <= a < b < previos.len() ==> previos[a] != previos[b]) ==> (
        forall|a: int, b: int|
            0 <= a < b < recientes_tras(previos, ruta).len() ==> recientes_tras(previos, ruta)[a]
                != recientes_tras(previos, ruta)[b]),
{
    lema_sin(previos, ruta);
    let s = sin(previos, ruta);
    let l = seq![ruta] + s;
    let r = recientes_tras(previos, ruta);
    assert(r[0] == ruta);
    assert forall|j: int| 1 <= j < r.len() implies #[trigger] r[j] != ruta && previos.contains(r[j]) by {
        assert(r[j] == s[j - 1]);
    }
    if forall|a: int, b: int| 0 <= a < b < previos.len() ==> previos[a] != previos[b] {
        assert forall|a: int, b: int| 0 <= a < b < r.len() implies r[a] != r[b] by {
            assert(r[b] == s[b - 1]);
            if a > 0 {
                assert(r[a] == s[a - 1]);
            }
        }
    }
}

} // verus!
