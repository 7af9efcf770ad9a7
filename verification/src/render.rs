//! The template renderer: string-level substitution of the sentinels that
//! the bundled editor page carries.

use vstd::prelude::*;

use crate::numeric::dec_seq;
use crate::numeric::u16_string;
use crate::text::replace_all;
use crate::text::replaced;
use crate::text::str_eq;

verus! {

/// The editor page template with its style payloads and the configured
/// language.
pub struct Template {
    /// The editor page with its sentinel strings.
    pub page: String,
    /// Style payload spliced into the page for self-contained export.
    pub style: String,
    /// Math style payload spliced into the page for self-contained export.
    pub katex: String,
    /// Configured editor locale, e.g. `en`.
    pub language: String,
}

/// The mathematical content of a `Template`.
pub struct TemplateView {
    pub page: Seq<char>,
    pub style: Seq<char>,
    pub katex: Seq<char>,
    pub language: Seq<char>,
}

impl View for Template {
    type V = TemplateView;

    open spec fn view(&self) -> TemplateView {
        TemplateView {
            page: self.page@,
            style: self.style@,
            katex: self.katex@,
            language: self.language@,
        }
    }
}

/// The ` selected` marker of the picker option of the current map.
pub open spec fn sel_mark(sel: bool) -> Seq<char> {
    if sel {
        " selected"@
    } else {
        Seq::empty()
    }
}

/// One map-picker option: `<option value='K'{sel}>K</option>`, with the
/// label appended in parentheses after the id when one is present.
pub open spec fn option_html(k: Seq<char>, label: Option<Seq<char>>, sel: bool) -> Seq<char> {
    match label {
        Some(l) => "<option value='"@ + k + "'"@ + sel_mark(sel) + ">"@ + k + "("@ + l
            + ")</option>"@,
        None => "<option value='"@ + k + "'"@ + sel_mark(sel) + ">"@ + k + "</option>"@,
    }
}

/// Build one map-picker option.
pub fn option_html_string(k: &str, label: Option<&String>, sel: bool) -> (r: String)
    ensures
        r@ == option_html(k@, label.deep_view(), sel),
{
    let mut out = String::from_str("<option value='");
    out.append(k);
    out.append("'");
    if sel {
        out.append(" selected");
    }
    proof {
        assert(out@ == "<option value='"@ + k@ + "'"@ + sel_mark(sel));
    }
    out.append(">");
    out.append(k);
    match label {
        Some(l) => {
            out.append("(");
            out.append(l.as_str());
            out.append(")</option>");
        },
        None => {
            out.append("</option>");
        },
    }
    out
}

/// The document of a map `u` before its content is spliced in: the
/// template with the picker reduced to `u`, the export filename, and the
/// style payloads.
pub open spec fn doc_pre(t: TemplateView, u: Seq<char>) -> Seq<char> {
    let h1 = replaced(
        t.page,
        "<option value='mindmap' selected>mindmap</option>"@,
        option_html(u, None, true),
    );
    let h2 = replaced(h1, "mindmap.png"@, u + ".png"@);
    let h3 = replaced(h2, "const style = ``;"@, "const style = `"@ + t.style + "`;"@);
    replaced(h3, "const katex = ``;"@, "const katex = `"@ + t.katex + "`;"@)
}

/// The bootstrap call that replaces the blank-map bootstrap: the stored
/// content handed to `JSON.parse`.
pub open spec fn bootstrap_of(content: Seq<char>) -> Seq<char> {
    "JSON.parse('"@ + content + "')"@
}

/// The document of a map `u` with its content spliced in and the locale
/// set, before the label placeholder is handled.
pub open spec fn doc_before_label(t: TemplateView, u: Seq<char>, content: Seq<char>) -> Seq<char> {
    let h5 = replaced(doc_pre(t, u), "MindElixir.new('root')"@, bootstrap_of(content));
    if t.language == "en"@ {
        h5
    } else {
        replaced(h5, "locale: 'en'"@, "locale: '"@ + t.language + "'"@)
    }
}

/// The self-contained document for a map `u` with content `content` and an
/// optional label: the template with the picker reduced to `u`, the export
/// filename, the style payloads, a `JSON.parse` bootstrap, a non-default
/// locale when configured, and the label placeholder when a label exists.
pub open spec fn doc_spec(
    t: TemplateView,
    u: Seq<char>,
    content: Seq<char>,
    label: Option<Seq<char>>,
) -> Seq<char> {
    match label {
        Some(l) => replaced(
            doc_before_label(t, u, content),
            "placeholder='mindmap label'>"@,
            "placeholder='"@ + l + "'>"@,
        ),
        None => doc_before_label(t, u, content),
    }
}

/// Render the self-contained document for one map.
pub fn render_doc(t: &Template, u: &str, content: &str, label: Option<&String>) -> (r: String)
    ensures
        r@ == doc_spec(t@, u@, content@, label.deep_view()),
{
    let opt = option_html_string(u, None, true);
    let h1 = replace_all(
        t.page.as_str(),
        "<option value='mindmap' selected>mindmap</option>",
        opt.as_str(),
    );
    let mut png = String::from_str(u);
    png.append(".png");
    let h2 = replace_all(h1.as_str(), "mindmap.png", png.as_str());
    let mut style = String::from_str("const style = `");
    style.append(t.style.as_str());
    style.append("`;");
    let h3 = replace_all(h2.as_str(), "const style = ``;", style.as_str());
    let mut katex = String::from_str("const katex = `");
    katex.append(t.katex.as_str());
    katex.append("`;");
    let h4 = replace_all(h3.as_str(), "const katex = ``;", katex.as_str());
    let mut boot = String::from_str("JSON.parse('");
    boot.append(content);
    boot.append("')");
    let h5 = replace_all(h4.as_str(), "MindElixir.new('root')", boot.as_str());
    let h6 = if str_eq(t.language.as_str(), "en") {
        h5
    } else {
        let mut loc = String::from_str("locale: '");
        loc.append(t.language.as_str());
        loc.append("'");
        replace_all(h5.as_str(), "locale: 'en'", loc.as_str())
    };
    match label {
        Some(l) => {
            let mut ph = String::from_str("placeholder='");
            ph.append(l.as_str());
            ph.append("'>");
            replace_all(h6.as_str(), "placeholder='mindmap label'>", ph.as_str())
        },
        None => h6,
    }
}

/// The `host:port` text spliced into a page for the client to call back.
pub open spec fn host_spec(addr: Seq<char>, port: u16) -> Seq<char> {
    addr + ":"@ + dec_seq(port as nat)
}

/// A fresh editor page for `u`: no stored content, the picker options of
/// `pd`, and the configured host, locale and export filename.
pub open spec fn fresh_page_spec(
    t: TemplateView,
    u: Seq<char>,
    addr: Seq<char>,
    port: u16,
    pd: Seq<char>,
) -> Seq<char> {
    let h1 = replaced(t.page, "127.0.0.1:8081"@, host_spec(addr, port));
    let h2 = replaced(h1, "download/mindmap"@, "download/"@ + u);
    let h3 = replaced(h2, "locale: 'en'"@, "locale: '"@ + t.language + "'"@);
    let h4 = replaced(h3, "<option value='mindmap' selected>mindmap</option>"@, pd + "\n"@);
    let h5 = replaced(h4, "mindmap.png"@, u + ".png"@);
    let h6 = replaced(h5, "const style = ``;"@, "const style = `"@ + t.style + "`;"@);
    replaced(h6, "const katex = ``;"@, "const katex = `"@ + t.katex + "`;"@)
}

/// Render a fresh editor page.
pub fn fresh_page(t: &Template, u: &str, addr: &str, port: u16, pd: &str) -> (r: String)
    ensures
        r@ == fresh_page_spec(t@, u@, addr@, port, pd@),
{
    let mut host = String::from_str(addr);
    host.append(":");
    let ps = u16_string(port);
    host.append(ps.as_str());
    let h1 = replace_all(t.page.as_str(), "127.0.0.1:8081", host.as_str());
    let mut dl = String::from_str("download/");
    dl.append(u);
    let h2 = replace_all(h1.as_str(), "download/mindmap", dl.as_str());
    let mut loc = String::from_str("locale: '");
    loc.append(t.language.as_str());
    loc.append("'");
    let h3 = replace_all(h2.as_str(), "locale: 'en'", loc.as_str());
    let mut pdn = String::from_str(pd);
    pdn.append("\n");
    let h4 = replace_all(
        h3.as_str(),
        "<option value='mindmap' selected>mindmap</option>",
        pdn.as_str(),
    );
    let mut png = String::from_str(u);
    png.append(".png");
    let h5 = replace_all(h4.as_str(), "mindmap.png", png.as_str());
    let mut style = String::from_str("const style = `");
    style.append(t.style.as_str());
    style.append("`;");
    let h6 = replace_all(h5.as_str(), "const style = ``;", style.as_str());
    let mut katex = String::from_str("const katex = `");
    katex.append(t.katex.as_str());
    katex.append("`;");
    replace_all(h6.as_str(), "const katex = ``;", katex.as_str())
}

/// An editor page for `u` bootstrapped with stored content and label.
pub open spec fn stored_page_spec(
    t: TemplateView,
    u: Seq<char>,
    addr: Seq<char>,
    port: u16,
    pd: Seq<char>,
    content: Seq<char>,
    label: Option<Seq<char>>,
) -> Seq<char> {
    let h1 = replaced(t.page, "127.0.0.1:8081"@, host_spec(addr, port));
    let h2 = replaced(h1, "download/mindmap"@, "download/"@ + u);
    let h3 = replaced(h2, "<option value='mindmap' selected>mindmap</option>"@, pd + "\n"@);
    let h4 = replaced(h3, "mindmap.png"@, u + ".png"@);
    let h5 = replaced(h4, "const style = ``;"@, "const style = `"@ + t.style + "`;"@);
    let h6 = replaced(h5, "const katex = ``;"@, "const katex = `"@ + t.katex + "`;"@);
    let h7 = replaced(h6, "MindElixir.new('root')"@, "JSON.parse('"@ + content + "')"@);
    let h8 = if t.language == "en"@ {
        h7
    } else {
        replaced(h7, "locale: 'en'"@, "locale: '"@ + t.language + "'"@)
    };
    match label {
        Some(l) => replaced(h8, "placeholder='mindmap label'>"@, "placeholder='"@ + l + "'>"@),
        None => h8,
    }
}

/// Render an editor page bootstrapped with stored content and label.
pub fn stored_page(
    t: &Template,
    u: &str,
    addr: &str,
    port: u16,
    pd: &str,
    content: &str,
    label: Option<&String>,
) -> (r: String)
    ensures
        r@ == stored_page_spec(t@, u@, addr@, port, pd@, content@, label.deep_view()),
{
    let mut host = String::from_str(addr);
    host.append(":");
    let ps = u16_string(port);
    host.append(ps.as_str());
    let h1 = replace_all(t.page.as_str(), "127.0.0.1:8081", host.as_str());
    let mut dl = String::from_str("download/");
    dl.append(u);
    let h2 = replace_all(h1.as_str(), "download/mindmap", dl.as_str());
    let mut pdn = String::from_str(pd);
    pdn.append("\n");
    let h3 = replace_all(
        h2.as_str(),
        "<option value='mindmap' selected>mindmap</option>",
        pdn.as_str(),
    );
    let mut png = String::from_str(u);
    png.append(".png");
    let h4 = replace_all(h3.as_str(), "mindmap.png", png.as_str());
    let mut style = String::from_str("const style = `");
    style.append(t.style.as_str());
    style.append("`;");
    let h5 = replace_all(h4.as_str(), "const style = ``;", style.as_str());
    let mut katex = String::from_str("const katex = `");
    katex.append(t.katex.as_str());
    katex.append("`;");
    let h6 = replace_all(h5.as_str(), "const katex = ``;", katex.as_str());
    let mut boot = String::from_str("JSON.parse('");
    boot.append(content);
    boot.append("')");
    let h7 = replace_all(h6.as_str(), "MindElixir.new('root')", boot.as_str());
    let h8 = if str_eq(t.language.as_str(), "en") {
        h7
    } else {
        let mut loc = String::from_str("locale: '");
        loc.append(t.language.as_str());
        loc.append("'");
        replace_all(h7.as_str(), "locale: 'en'", loc.as_str())
    };
    match label {
        Some(l) => {
            let mut ph = String::from_str("placeholder='");
            ph.append(l.as_str());
            ph.append("'>");
            replace_all(h8.as_str(), "placeholder='mindmap label'>", ph.as_str())
        },
        None => h8,
    }
}

} // verus!
