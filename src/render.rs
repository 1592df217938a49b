//! Markdown to sanitized HTML, and the page wrapping around it.
use vstd::prelude::*;

verus! {

/// What ammonia's default sanitizer, widened with the given generic
/// attributes, keeps of `html`.
pub uninterp spec fn ammonia_clean(html: Seq<char>, generic_attributes: Seq<Seq<char>>) -> Seq<char>;

/// Markdown parser settings. The library holds them as plain values; the
/// Markdown parser itself runs at the application's edge, which turns them
/// into comrak's options.
pub struct MarkdownOptions {
    /// Turn straight quotes and dashes into typographic ones.
    pub smart: bool,
    /// Pass raw HTML in the source through to the output.
    pub allow_raw_html: bool,
    /// `^text^` becomes `<sup>`.
    pub superscript: bool,
    /// Bare URLs become links.
    pub autolink: bool,
    /// Pipe tables become `<table>`.
    pub table: bool,
    /// When set, headings get an `id` made of this prefix and a slug of their text.
    pub header_id_prefix: Option<String>,
}

/// Sanitizer settings on top of ammonia's default allowlist.
pub struct SanitizerPolicy {
    /// Attributes allowed on every element.
    pub generic_attributes: Vec<String>,
}

/// The rendering configuration, built once and shared by every request.
pub struct RenderConfig {
    pub markdown: MarkdownOptions,
    pub sanitizer: SanitizerPolicy,
}

pub open spec fn opt_view(o: Option<String>) -> Option<Seq<char>> {
    match o {
        Some(s) => Some(s@),
        None => None,
    }
}

pub open spec fn strings_view(v: Seq<String>) -> Seq<Seq<char>> {
    v.map_values(|s: String| s@)
}

impl SanitizerPolicy {
    /// `rel` is not among the generic attributes: ammonia's default builder
    /// manages that attribute on links itself.
    pub open spec fn admits_default_link_rel(&self) -> bool {
        !strings_view(self.generic_attributes@).contains("rel"@)
    }

    /// What this policy keeps of `html`.
    pub open spec fn clean_of(&self, html: Seq<char>) -> Seq<char> {
        ammonia_clean(html, strings_view(self.generic_attributes@))
    }
}

impl RenderConfig {
    /// Tables, superscript, autolinks, smart punctuation, heading ids with an
    /// empty prefix, raw HTML let through to the sanitizer, and `id` and
    /// `class` allowed on every element.
    pub open spec fn is_standard(&self) -> bool {
        &&& self.markdown.smart
        &&& self.markdown.allow_raw_html
        &&& self.markdown.superscript
        &&& self.markdown.autolink
        &&& self.markdown.table
        &&& opt_view(self.markdown.header_id_prefix) == Some(Seq::<char>::empty())
        &&& strings_view(self.sanitizer.generic_attributes@) == seq!["id"@, "class"@]
    }

    /// The standard configuration's sanitizer leaves `rel` to ammonia.
    pub proof fn lemma_standard_admits_link_rel(&self)
        requires
            self.is_standard(),
        ensures
            self.sanitizer.admits_default_link_rel(),
    {
        reveal_strlit("id");
        reveal_strlit("class");
        reveal_strlit("rel");
        let v = strings_view(self.sanitizer.generic_attributes@);
        assert(v.len() == 2 && v[0] == "id"@ && v[1] == "class"@);
        assert("id"@.len() == 2 && "class"@.len() == 5 && "rel"@.len() == 3);
        assert(v[0] != "rel"@ && v[1] != "rel"@);
    }

    /// The configuration the server runs with.
    pub fn standard() -> (r: RenderConfig)
        ensures
            r.is_standard(),
            r.sanitizer.admits_default_link_rel(),
    {
        let mut attrs: Vec<String> = Vec::new();
        attrs.push(String::from_str("id"));
        attrs.push(String::from_str("class"));
        let r = RenderConfig {
            markdown: MarkdownOptions {
                smart: true,
                allow_raw_html: true,
                superscript: true,
                autolink: true,
                table: true,
                header_id_prefix: Some(String::new()),
            },
            sanitizer: SanitizerPolicy { generic_attributes: attrs },
        };
        proof {
            assert(strings_view(r.sanitizer.generic_attributes@) =~= seq!["id"@, "class"@]);
            r.lemma_standard_admits_link_rel();
        }
        r
    }
}

/// Relies on ammonia::Builder: `default`, `add_generic_attributes`, then
/// `clean` and `Document::to_string`. The default builder sets `rel` on
/// links itself, and `clean` panics when `rel` is also a generic attribute.
#[verifier::external_body]
fn sanitize(html: &str, policy: &SanitizerPolicy) -> (r: String)
    requires
        !strings_view(policy.generic_attributes@).contains("rel"@),
    ensures
        r@ == ammonia_clean(html@, strings_view(policy.generic_attributes@)),
{
    let mut b = ammonia::Builder::default();
    b.add_generic_attributes(policy.generic_attributes.iter());
    b.clean(html).to_string()
}

/// Sanitizes the HTML that the Markdown parser produced: only the policy's
/// allowlist survives. Deterministic: the result depends on the HTML and the
/// configuration alone.
pub fn render(html: &str, config: &RenderConfig) -> (r: String)
    requires
        config.sanitizer.admits_default_link_rel(),
    ensures
        r@ == config.sanitizer.clean_of(html@),
{
    sanitize(html, &config.sanitizer)
}

/// A full page: the head fragment, the rendered body and the tail fragment,
/// joined as they are.
pub fn wrap_page(head: &str, body: &str, tail: &str) -> (r: String)
    ensures
        r@ == head@ + body@ + tail@,
{
    let page = String::from_str(head);
    let page = page.concat(body);
    page.concat(tail)
}

} // verus!
