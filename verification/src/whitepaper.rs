//! The technical white paper's content and layout, in either language.
//!
//! The document is a fixed two-page text layout; this module computes every
//! text span's page, position and size on a tenth-of-a-millimetre and
//! tenth-of-a-point grid. Rendering the spans into a PDF file is left to
//! the caller.

use vstd::prelude::*;
use vstd::string::StringExecFns;

verus! {

/// One text span of the white paper: where it stands, how it is set, and
/// what it says. Positions are tenths of a millimetre from the page's left
/// and bottom edges; sizes are tenths of a point.
pub struct PdfText {
    pub page: u8,
    pub x_tenths: u32,
    pub y_tenths: i32,
    pub size_tenths: u32,
    pub bold: bool,
    pub text: String,
}

/// The left margin of every span.
pub const PDF_LEFT_MARGIN_TENTHS: u32 = 200;

/// What holds of every span of the document: it stands on one of the two
/// pages, at the left margin, in one of the document's sizes.
pub open spec fn span_ok(sp: PdfText) -> bool {
    &&& sp.page == 1 || sp.page == 2
    &&& sp.x_tenths == PDF_LEFT_MARGIN_TENTHS
    &&& 80 <= sp.size_tenths <= 220
}

fn push_span(
    out: &mut Vec<PdfText>,
    page: u8,
    y_tenths: i32,
    size_tenths: u32,
    bold: bool,
    text: &str,
)
    requires
        page == 1 || page == 2,
        80 <= size_tenths <= 220,
    ensures
        final(out)@.len() == old(out)@.len() + 1,
        (forall|k: int| 0 <= k < old(out)@.len() ==> span_ok(#[trigger] old(out)@[k]))
            ==> (forall|k: int|
            0 <= k < final(out)@.len() ==> span_ok(#[trigger] final(out)@[k])),
        forall|k: int| 0 <= k < old(out)@.len() ==> final(out)@[k] == old(
            out,
        )@[k],
        final(out)@.last().page == page,
        final(out)@.last().x_tenths == PDF_LEFT_MARGIN_TENTHS,
        final(out)@.last().y_tenths == y_tenths,
        final(out)@.last().size_tenths == size_tenths,
        final(out)@.last().bold == bold,
        final(out)@.last().text@ == text@,
{
    out.push(
        PdfText {
            page,
            x_tenths: PDF_LEFT_MARGIN_TENTHS,
            y_tenths,
            size_tenths,
            bold,
            text: String::from_str(text),
        },
    );
}

fn push_lines(
    out: &mut Vec<PdfText>,
    page: u8,
    y_tenths: i32,
    step_tenths: i32,
    size_tenths: u32,
    lines: &Vec<&str>,
) -> (ny: i32)
    requires
        page == 1 || page == 2,
        80 <= size_tenths <= 220,
        -100000 <= y_tenths <= 100000,
        0 <= step_tenths <= 100,
        lines@.len() <= 50,
    ensures
        ny == y_tenths - lines@.len() * step_tenths,
        final(out)@.len() == old(out)@.len() + lines@.len(),
        (forall|k: int| 0 <= k < old(out)@.len() ==> span_ok(#[trigger] old(out)@[k]))
            ==> (forall|k: int|
            0 <= k < final(out)@.len() ==> span_ok(#[trigger] final(out)@[k])),
        forall|k: int| 0 <= k < old(out)@.len() ==> final(out)@[k] == old(
            out,
        )@[k],
        forall|k: int|
            0 <= k < lines@.len() ==> {
                let sp = #[trigger] final(out)@[old(out)@.len() + k];
                sp.page == page && sp.x_tenths == PDF_LEFT_MARGIN_TENTHS
                    && sp.y_tenths == y_tenths - k * step_tenths
                    && sp.size_tenths == size_tenths && sp.bold == false
                    && sp.text@ == lines@[k]@
            },
{
    let mut y: i32 = y_tenths;
    let mut i: usize = 0;
    while i < lines.len()
        invariant
            i <= lines@.len(),
            lines@.len() <= 50,
            -100000 <= y_tenths <= 100000,
            0 <= step_tenths <= 100,
            page == 1 || page == 2,
            80 <= size_tenths <= 220,
            y == y_tenths - i * step_tenths,
            out@.len() == old(out)@.len() + i,
            (forall|k: int| 0 <= k < old(out)@.len() ==> span_ok(
                #[trigger] old(out)@[k],
            )) ==> (forall|k: int|
                0 <= k < out@.len() ==> span_ok(#[trigger] out@[k])),
            forall|k: int| 0 <= k < old(out)@.len() ==> out@[k] == old(out)@[k],
            forall|k: int|
                0 <= k < i ==> {
                    let sp = #[trigger] out@[old(out)@.len() + k];
                    sp.page == page && sp.x_tenths == PDF_LEFT_MARGIN_TENTHS
                        && sp.y_tenths == y_tenths - k * step_tenths
                        && sp.size_tenths == size_tenths && sp.bold == false
                        && sp.text@ == lines@[k]@
                },
        decreases lines@.len() - i,
    {
        push_span(out, page, y, size_tenths, false, lines[i]);
        proof {
            assert(i * step_tenths + step_tenths == (i + 1) * step_tenths)
                by (nonlinear_arith);
            assert(i as int * step_tenths <= 50 * 100) by (nonlinear_arith)
                requires 0 <= i <= 50, 0 <= step_tenths <= 100;
        }
        y = y - step_tenths;
        i = i + 1;
    }
    y
}

/// The white paper's complete text layout, in Spanish or English: header,
/// title and executive summary, problem statement and architecture on the
/// first page; performance data, image figures, conclusion and contact on
/// the second; one footer line on each page.
pub fn generate_whitepaper_pdf(spanish: bool) -> (r: Vec<PdfText>)
    ensures
        r@.len() == 73,
        forall|k: int| 0 <= k < r@.len() ==> span_ok(#[trigger] r@[k]),
        r@[0].text@ == "SOUTH CITY COMPUTER"@,
        r@[2].text@ == (if spanish {
            "El Sitio Web Sub-Segundo"@
        } else {
            "The Sub-Second Website"@
        }),
        r@[2].bold && r@[2].size_tenths == 220,
        r@[r@.len() - 2].page == 1 && r@[r@.len() - 1].page == 2,
        r@[r@.len() - 2].y_tenths == 100 && r@[r@.len() - 1].y_tenths == 100,
        r@[r@.len() - 2].text@
            == "South City Computer | Puerto Morelos, Mexico | southcitycomputer.com"@,
        r@[r@.len() - 1].text@
            == "South City Computer | Puerto Morelos, Mexico | southcitycomputer.com"@,
{
    let mut out: Vec<PdfText> = Vec::new();
    let mut y: i32 = 2700;

    // Page 1: header
    push_span(&mut out, 1, y, 140, true, "SOUTH CITY COMPUTER");
    y = y - 60;
    if spanish {
        push_span(&mut out, 1, y, 90, false, "Documento T\u{e9}cnico | Enero 2026");
    } else {
        push_span(&mut out, 1, y, 90, false, "Technical White Paper | January 2026");
    }

    // Title block
    y = y - 250;
    if spanish {
        push_span(&mut out, 1, y, 220, true, "El Sitio Web Sub-Segundo");
        y = y - 100;
        push_span(
            &mut out,
            1,
            y,
            110,
            false,
            "C\u{f3}mo Logramos Cargas de P\u{e1}gina 46x M\u{e1}s R\u{e1}pidas",
        );
        y = y - 60;
        push_span(
            &mut out,
            1,
            y,
            110,
            false,
            "Usando Rust, WebP y Arquitectura Residente en Memoria",
        );
    } else {
        push_span(&mut out, 1, y, 220, true, "The Sub-Second Website");
        y = y - 100;
        push_span(
            &mut out,
            1,
            y,
            110,
            false,
            "How We Achieved 46x Faster Page Loads Using Rust, WebP,",
        );
        y = y - 60;
        push_span(&mut out, 1, y, 110, false, "and Memory-Resident Architecture");
    }

    // Executive summary
    y = y - 200;
    if spanish {
        push_span(&mut out, 1, y, 120, true, "RESUMEN EJECUTIVO");
    } else {
        push_span(&mut out, 1, y, 120, true, "EXECUTIVE SUMMARY");
    }
    y = y - 100;
    let summary_lines: Vec<&str> = if spanish {
        vec![
            "Este documento t\u{e9}cnico documenta la reconstrucci\u{f3}n completa del sitio web",
            "de South City Computer, logrando un tiempo de carga de 52 milisegundos",
            "comparado con el promedio de la industria de 2.4 segundos.",
            "",
            "Resultados Clave:",
            "\u{2022} Tiempo de carga: 52ms (mejora de 46x sobre el promedio)",
            "\u{2022} Tama\u{f1}o binario: 13MB con todos los activos embebidos",
            "\u{2022} Rendimiento del servidor: 600+ req/seg en hardware b\u{e1}sico",
            "\u{2022} Cero lectura de disco durante operaci\u{f3}n",
        ]
    } else {
        vec![
            "This white paper documents the complete rebuild of the South City Computer",
            "website, achieving a 52-millisecond page load time compared to the",
            "industry average of 2.4 seconds.",
            "",
            "Key Results:",
            "\u{2022} Load time: 52ms (46x improvement over average)",
            "\u{2022} Binary size: 13MB with all assets embedded",
            "\u{2022} Server throughput: 600+ req/sec on commodity hardware",
            "\u{2022} Zero disk reads during operation",
        ]
    };
    y = push_lines(&mut out, 1, y, 55, 100, &summary_lines);

    // Problem statement
    y = y - 120;
    if spanish {
        push_span(&mut out, 1, y, 120, true, "EL PROBLEMA");
    } else {
        push_span(&mut out, 1, y, 120, true, "THE PROBLEM");
    }
    y = y - 100;
    let problem_lines: Vec<&str> = if spanish {
        vec![
            "Los sitios web modernos sufren de sobrecarga de complejidad:",
            "",
            "\u{2022} El sitio promedio de WordPress tarda 2.5-3 segundos en cargar",
            "\u{2022} Cada segundo de retraso reduce las conversiones en 7%",
            "\u{2022} El 53% de los usuarios abandonan sitios que tardan >3 segundos",
            "\u{2022} Los tiempos de carga en m\u{f3}vil son a\u{fa}n peores (13+ segundos)",
        ]
    } else {
        vec![
            "Modern websites suffer from complexity bloat:",
            "",
            "\u{2022} Average WordPress site takes 2.5-3 seconds to load",
            "\u{2022} Each second of delay reduces conversions by 7%",
            "\u{2022} 53% of users abandon sites that take >3 seconds",
            "\u{2022} Mobile load times are even worse (13+ seconds)",
        ]
    };
    y = push_lines(&mut out, 1, y, 55, 100, &problem_lines);

    // Architecture
    y = y - 120;
    if spanish {
        push_span(&mut out, 1, y, 120, true, "ARQUITECTURA T\u{c9}CNICA");
    } else {
        push_span(&mut out, 1, y, 120, true, "TECHNICAL ARCHITECTURE");
    }
    y = y - 100;
    let arch_lines: Vec<&str> = if spanish {
        vec![
            "Nuestra soluci\u{f3}n utiliza una arquitectura monol\u{ed}tica de binario \u{fa}nico:",
            "",
            "1. Rust + Actix Web: Servidor web de alto rendimiento",
            "2. rust-embed: Todos los activos compilados en el binario",
            "3. Im\u{e1}genes WebP: 78% de reducci\u{f3}n en tama\u{f1}o de im\u{e1}genes",
            "4. CSS/JS minificado: Recursos optimizados",
            "5. Sin base de datos: Sin latencia de consultas",
            "",
            "Esto elimina toda E/S de disco durante operaci\u{f3}n normal,",
            "sirviendo todo el contenido directamente desde memoria.",
        ]
    } else {
        vec![
            "Our solution uses a single-binary monolithic architecture:",
            "",
            "1. Rust + Actix Web: High-performance web server",
            "2. rust-embed: All assets compiled into the binary",
            "3. WebP images: 78% reduction in image size",
            "4. Minified CSS/JS: Optimized resources",
            "5. No database: Zero query latency",
            "",
            "This eliminates all disk I/O during normal operation,",
            "serving all content directly from memory.",
        ]
    };
    let _ = push_lines(&mut out, 1, y, 55, 100, &arch_lines);

    // Page 2: performance data
    y = 2700;
    if spanish {
        push_span(&mut out, 2, y, 120, true, "DATOS DE RENDIMIENTO");
    } else {
        push_span(&mut out, 2, y, 120, true, "PERFORMANCE DATA");
    }
    y = y - 120;
    if spanish {
        push_span(
            &mut out,
            2,
            y,
            100,
            true,
            "M\u{e9}tricas de Prueba de Carga (1000 solicitudes):",
        );
    } else {
        push_span(&mut out, 2, y, 100, true, "Load Test Metrics (1000 requests):");
    }
    y = y - 80;
    let perf_lines: Vec<&str> = if spanish {
        vec![
            "\u{2022} Tiempo promedio de respuesta: 52ms",
            "\u{2022} Percentil 95: 68ms",
            "\u{2022} Rendimiento: 612 solicitudes/segundo",
            "\u{2022} Cero errores en todas las pruebas",
            "",
            "Comparaci\u{f3}n con Sitios Web T\u{ed}picos:",
            "",
            "  Nuestra Soluci\u{f3}n:     52ms   \u{2588}\u{2588}\u{2588}\u{2588}",
            "  Sitio est\u{e1}tico:       200ms  \u{2588}\u{2588}\u{2588}\u{2588}\u{2588}\u{2588}\u{2588}\u{2588}\u{2588}\u{2588}\u{2588}\u{2588}\u{2588}\u{2588}\u{2588}\u{2588}",
            "  WordPress optimizado: 800ms  \u{2588}\u{2588}\u{2588}\u{2588}\u{2588}\u{2588}\u{2588}\u{2588}\u{2588}\u{2588}\u{2588}\u{2588}\u{2588}\u{2588}\u{2588}\u{2588}\u{2588}\u{2588}\u{2588}\u{2588}\u{2588}\u{2588}\u{2588}\u{2588}\u{2588}\u{2588}\u{2588}\u{2588}\u{2588}\u{2588}\u{2588}\u{2588}\u{2588}\u{2588}\u{2588}\u{2588}\u{2588}\u{2588}\u{2588}\u{2588}\u{2588}\u{2588}\u{2588}\u{2588}\u{2588}\u{2588}\u{2588}\u{2588}\u{2588}\u{2588}",
            "  WordPress promedio:   2400ms [barra truncada - 46x m\u{e1}s largo]",
        ]
    } else {
        vec![
            "\u{2022} Average response time: 52ms",
            "\u{2022} 95th percentile: 68ms",
            "\u{2022} Throughput: 612 requests/second",
            "\u{2022} Zero errors across all tests",
            "",
            "Comparison with Typical Websites:",
            "",
            "  Our Solution:         52ms   \u{2588}\u{2588}\u{2588}\u{2588}",
            "  Static site:          200ms  \u{2588}\u{2588}\u{2588}\u{2588}\u{2588}\u{2588}\u{2588}\u{2588}\u{2588}\u{2588}\u{2588}\u{2588}\u{2588}\u{2588}\u{2588}\u{2588}",
            "  Optimized WordPress:  800ms  \u{2588}\u{2588}\u{2588}\u{2588}\u{2588}\u{2588}\u{2588}\u{2588}\u{2588}\u{2588}\u{2588}\u{2588}\u{2588}\u{2588}\u{2588}\u{2588}\u{2588}\u{2588}\u{2588}\u{2588}\u{2588}\u{2588}\u{2588}\u{2588}\u{2588}\u{2588}\u{2588}\u{2588}\u{2588}\u{2588}\u{2588}\u{2588}\u{2588}\u{2588}\u{2588}\u{2588}\u{2588}\u{2588}\u{2588}\u{2588}\u{2588}\u{2588}\u{2588}\u{2588}\u{2588}\u{2588}\u{2588}\u{2588}\u{2588}\u{2588}",
            "  Average WordPress:    2400ms [bar truncated - 46x longer]",
        ]
    };
    y = push_lines(&mut out, 2, y, 55, 100, &perf_lines);

    // Image optimization
    y = y - 120;
    if spanish {
        push_span(&mut out, 2, y, 120, true, "OPTIMIZACI\u{d3}N DE IM\u{c1}GENES");
    } else {
        push_span(&mut out, 2, y, 120, true, "IMAGE OPTIMIZATION");
    }
    y = y - 100;
    let img_lines: Vec<&str> = if spanish {
        vec![
            "Conversi\u{f3}n de PNG/JPEG a WebP:",
            "",
            "  Imagen              Original    WebP     Reducci\u{f3}n",
            "  \u{2500}\u{2500}\u{2500}\u{2500}\u{2500}\u{2500}\u{2500}\u{2500}\u{2500}\u{2500}\u{2500}\u{2500}\u{2500}\u{2500}\u{2500}\u{2500}\u{2500}\u{2500}\u{2500}\u{2500}\u{2500}\u{2500}\u{2500}\u{2500}\u{2500}\u{2500}\u{2500}\u{2500}\u{2500}\u{2500}\u{2500}\u{2500}\u{2500}\u{2500}\u{2500}\u{2500}\u{2500}\u{2500}\u{2500}\u{2500}\u{2500}\u{2500}\u{2500}\u{2500}\u{2500}\u{2500}\u{2500}\u{2500}\u{2500}\u{2500}",
            "  Storefront          3.2MB       687KB    78.5%",
            "  Wall mural          2.1MB       134KB    93.6%",
            "  Store interior      1.8MB       245KB    86.4%",
            "  \u{2500}\u{2500}\u{2500}\u{2500}\u{2500}\u{2500}\u{2500}\u{2500}\u{2500}\u{2500}\u{2500}\u{2500}\u{2500}\u{2500}\u{2500}\u{2500}\u{2500}\u{2500}\u{2500}\u{2500}\u{2500}\u{2500}\u{2500}\u{2500}\u{2500}\u{2500}\u{2500}\u{2500}\u{2500}\u{2500}\u{2500}\u{2500}\u{2500}\u{2500}\u{2500}\u{2500}\u{2500}\u{2500}\u{2500}\u{2500}\u{2500}\u{2500}\u{2500}\u{2500}\u{2500}\u{2500}\u{2500}\u{2500}\u{2500}\u{2500}",
            "  TOTAL               20MB        4.3MB    78.5%",
        ]
    } else {
        vec![
            "PNG/JPEG to WebP Conversion:",
            "",
            "  Image               Original    WebP     Reduction",
            "  \u{2500}\u{2500}\u{2500}\u{2500}\u{2500}\u{2500}\u{2500}\u{2500}\u{2500}\u{2500}\u{2500}\u{2500}\u{2500}\u{2500}\u{2500}\u{2500}\u{2500}\u{2500}\u{2500}\u{2500}\u{2500}\u{2500}\u{2500}\u{2500}\u{2500}\u{2500}\u{2500}\u{2500}\u{2500}\u{2500}\u{2500}\u{2500}\u{2500}\u{2500}\u{2500}\u{2500}\u{2500}\u{2500}\u{2500}\u{2500}\u{2500}\u{2500}\u{2500}\u{2500}\u{2500}\u{2500}\u{2500}\u{2500}\u{2500}\u{2500}",
            "  Storefront          3.2MB       687KB    78.5%",
            "  Wall mural          2.1MB       134KB    93.6%",
            "  Store interior      1.8MB       245KB    86.4%",
            "  \u{2500}\u{2500}\u{2500}\u{2500}\u{2500}\u{2500}\u{2500}\u{2500}\u{2500}\u{2500}\u{2500}\u{2500}\u{2500}\u{2500}\u{2500}\u{2500}\u{2500}\u{2500}\u{2500}\u{2500}\u{2500}\u{2500}\u{2500}\u{2500}\u{2500}\u{2500}\u{2500}\u{2500}\u{2500}\u{2500}\u{2500}\u{2500}\u{2500}\u{2500}\u{2500}\u{2500}\u{2500}\u{2500}\u{2500}\u{2500}\u{2500}\u{2500}\u{2500}\u{2500}\u{2500}\u{2500}\u{2500}\u{2500}\u{2500}\u{2500}",
            "  TOTAL               20MB        4.3MB    78.5%",
        ]
    };
    y = push_lines(&mut out, 2, y, 50, 90, &img_lines);

    // Conclusion
    y = y - 150;
    if spanish {
        push_span(&mut out, 2, y, 120, true, "CONCLUSI\u{d3}N");
    } else {
        push_span(&mut out, 2, y, 120, true, "CONCLUSION");
    }
    y = y - 100;
    let conclusion_lines: Vec<&str> = if spanish {
        vec![
            "Al eliminar la complejidad innecesaria y enfocarnos en los fundamentos,",
            "logramos mejoras dram\u{e1}ticas de rendimiento:",
            "",
            "\u{2022} 46x m\u{e1}s r\u{e1}pido que el sitio web promedio",
            "\u{2022} 20x menos solicitudes de red",
            "\u{2022} Cero dependencias de base de datos",
            "\u{2022} Binario \u{fa}nico y f\u{e1}cil de desplegar",
            "",
            "Estos principios pueden aplicarse a cualquier sitio web, desde simples",
            "p\u{e1}ginas de negocio hasta aplicaciones empresariales complejas.",
        ]
    } else {
        vec![
            "By eliminating unnecessary complexity and focusing on fundamentals,",
            "we achieved dramatic performance improvements:",
            "",
            "\u{2022} 46x faster than average website",
            "\u{2022} 20x fewer network requests",
            "\u{2022} Zero database dependencies",
            "\u{2022} Single binary, easy to deploy",
            "",
            "These principles can be applied to any website, from simple business",
            "pages to complex enterprise applications.",
        ]
    };
    y = push_lines(&mut out, 2, y, 55, 100, &conclusion_lines);

    // Contact block
    y = y - 150;
    if spanish {
        push_span(&mut out, 2, y, 100, true, "CONTACTO");
    } else {
        push_span(&mut out, 2, y, 100, true, "CONTACT");
    }
    y = y - 70;
    push_span(&mut out, 2, y, 100, false, "South City Computer");
    y = y - 50;
    push_span(&mut out, 2, y, 100, false, "Puerto Morelos, Mexico");
    y = y - 50;
    push_span(&mut out, 2, y, 100, false, "www.southcitycomputer.com");

    // Footers
    push_span(
        &mut out,
        1,
        100,
        80,
        false,
        "South City Computer | Puerto Morelos, Mexico | southcitycomputer.com",
    );
    push_span(
        &mut out,
        2,
        100,
        80,
        false,
        "South City Computer | Puerto Morelos, Mexico | southcitycomputer.com",
    );
    out
}

} // verus!
