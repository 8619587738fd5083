use vstd::prelude::*;
use vstd::string::*;

verus! {

/// The HTML that the Markdown converter produces for a document; a function
/// of the text alone.
pub uninterp spec fn html_of(md: Seq<char>) -> Seq<char>;

/// Relies on `comrak::markdown_to_html`: converts Markdown text to HTML, a
/// pure function of the text under fixed options (strikethrough extension
/// on, tag filter off, raw HTML passed through).
#[verifier::external_body]
pub(crate) fn markdown_html(md: &str) -> (r: String)
    ensures
        r@ == html_of(md@),
{
    let mut options = comrak::Options::default();
    options.extension.strikethrough = true;
    options.extension.tagfilter = false;
    options.render.unsafe_ = true;
    comrak::markdown_to_html(md, &options)
}

/// What the template engine produces for a template rendered against two
/// named string values; a function of the five strings alone.
pub uninterp spec fn rendered_kv2(
    tpl: Seq<char>,
    k1: Seq<char>,
    v1: Seq<char>,
    k2: Seq<char>,
    v2: Seq<char>,
) -> Seq<char>;

/// Whether the template engine succeeds on a template and two named string
/// values; like the output, a function of the five strings alone.
pub uninterp spec fn renders_kv2(
    tpl: Seq<char>,
    k1: Seq<char>,
    v1: Seq<char>,
    k2: Seq<char>,
    v2: Seq<char>,
) -> bool;

/// Relies on `minijinja::Environment::render_str`: renders a template from
/// a string against a context of two named string values, a pure function
/// of template and context; `None` exactly when the engine reports an
/// error, which is likewise determined by template and context.
#[verifier::external_body]
pub(crate) fn render_kv2(tpl: &str, k1: &str, v1: &str, k2: &str, v2: &str) -> (r: Option<
    String,
>)
    ensures
        r is Some <==> renders_kv2(tpl@, k1@, v1@, k2@, v2@),
        r matches Some(s) ==> s@ == rendered_kv2(tpl@, k1@, v1@, k2@, v2@),
{
    let mut ctx = std::collections::BTreeMap::new();
    ctx.insert(k1, v1);
    ctx.insert(k2, v2);
    minijinja::Environment::new().render_str(tpl, ctx).ok()
}

/// One row handed to the index template: a post's title, its page path and
/// its display date.
pub struct IndexItem {
    pub title: String,
    pub path: String,
    pub date: String,
}

impl View for IndexItem {
    type V = (Seq<char>, Seq<char>, Seq<char>);

    open spec fn view(&self) -> (Seq<char>, Seq<char>, Seq<char>) {
        (self.title@, self.path@, self.date@)
    }
}

/// What the template engine produces for a template rendered against a
/// named string value and a named list of rows; a function of these alone.
pub uninterp spec fn rendered_list(
    tpl: Seq<char>,
    k1: Seq<char>,
    v1: Seq<char>,
    k2: Seq<char>,
    items: Seq<(Seq<char>, Seq<char>, Seq<char>)>,
) -> Seq<char>;

/// Whether the template engine succeeds on a template, a named string
/// value and a named list of rows; a function of these alone.
pub uninterp spec fn renders_list(
    tpl: Seq<char>,
    k1: Seq<char>,
    v1: Seq<char>,
    k2: Seq<char>,
    items: Seq<(Seq<char>, Seq<char>, Seq<char>)>,
) -> bool;

/// Relies on `minijinja::Environment::render_str` and
/// `minijinja::value::Value::from_serialize`: renders a template against a
/// context of one named string value and one named list of rows, each row
/// carrying its title, path and date fields; a pure function of template
/// and context; `None` exactly when the engine reports an error, which is
/// likewise determined by template and context.
#[verifier::external_body]
pub(crate) fn render_list(tpl: &str, k1: &str, v1: &str, k2: &str, items: &Vec<IndexItem>) -> (r:
    Option<String>)
    ensures
        r is Some <==> renders_list(
            tpl@,
            k1@,
            v1@,
            k2@,
            items@.map_values(|it: IndexItem| it@),
        ),
        r matches Some(s) ==> s@ == rendered_list(
            tpl@,
            k1@,
            v1@,
            k2@,
            items@.map_values(|it: IndexItem| it@),
        ),
{
    let rows: Vec<std::collections::BTreeMap<&str, &str>> = items
        .iter()
        .map(|it| {
            std::collections::BTreeMap::from(
                [("title", it.title.as_str()), ("path", it.path.as_str()), ("date", it.date.as_str())],
            )
        })
        .collect();
    let mut ctx = std::collections::BTreeMap::new();
    ctx.insert(k1, minijinja::value::Value::from(v1));
    ctx.insert(k2, minijinja::value::Value::from_serialize(&rows));
    minijinja::Environment::new().render_str(tpl, ctx).ok()
}

/// The page template a single post is rendered with.
pub open spec fn spec_template_single() -> Seq<char> {
    "<!doctype html>
<html>
<head>
    <title>{{ title }}</title>
    <link rel=\"stylesheet\" href=\"/style.css\">
    <meta name=\"description\" content=\"Our first page\">
    <meta name=\"keywords\" content=\"html tutorial template\">
</head>
<body>
    <main>
    <h1>{{ title }}</h1>
    {{ body }}
    </main>
</body>
</html>"@
}

pub fn template_single() -> (r: &'static str)
    ensures
        r@ == spec_template_single(),
{
    "<!doctype html>
<html>
<head>
    <title>{{ title }}</title>
    <link rel=\"stylesheet\" href=\"/style.css\">
    <meta name=\"description\" content=\"Our first page\">
    <meta name=\"keywords\" content=\"html tutorial template\">
</head>
<body>
    <main>
    <h1>{{ title }}</h1>
    {{ body }}
    </main>
</body>
</html>"
}

/// The index template the site's front page is rendered with.
pub open spec fn spec_template_index() -> Seq<char> {
    "<!doctype html>
<html>
<head>
    <title>{{ title }}</title>
    <link rel=\"stylesheet\" href=\"/style.css\">
    <meta name=\"description\" content=\"Our first page\">
    <meta name=\"keywords\" content=\"html tutorial template\">
</head>
<body>
    <main>
    <h1>{{ title }}</h1>
    <ul class=\"nav\">
    {% for item in items %}
      <li>{{ item.date }} <a href=\"{{ item.path }}\">{{ item.title }}</a></li>
    {% endfor %}
    </ul>
    </main>
</body>
</html>"@
}

pub fn template_index() -> (r: &'static str)
    ensures
        r@ == spec_template_index(),
{
    "<!doctype html>
<html>
<head>
    <title>{{ title }}</title>
    <link rel=\"stylesheet\" href=\"/style.css\">
    <meta name=\"description\" content=\"Our first page\">
    <meta name=\"keywords\" content=\"html tutorial template\">
</head>
<body>
    <main>
    <h1>{{ title }}</h1>
    <ul class=\"nav\">
    {% for item in items %}
      <li>{{ item.date }} <a href=\"{{ item.path }}\">{{ item.title }}</a></li>
    {% endfor %}
    </ul>
    </main>
</body>
</html>"
}

/// Renders the page of one post from its title and its HTML body; fails
/// exactly when the template engine does.
pub fn render_post_page(title: &str, body_html: &str) -> (r: Option<String>)
    ensures
        r is Some <==> renders_kv2(
            spec_template_single(),
            "title"@,
            title@,
            "body"@,
            body_html@,
        ),
        r matches Some(s) ==> s@ == rendered_kv2(
            spec_template_single(),
            "title"@,
            title@,
            "body"@,
            body_html@,
        ),
{
    render_kv2(template_single(), "title", title, "body", body_html)
}

} // verus!
