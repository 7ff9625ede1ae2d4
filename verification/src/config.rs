//! Server testing configurations: which file formats describe them, and
//! the reading of a Play Framework (v2) "routes" file into test targets.
use vstd::prelude::*;

use crate::http_types::parsed_uri;
use crate::target::{
    built_uri, draw_text, draw_texts, lemma_path_draws, sample_fits, uri_prefix, ArgGenerator,
    ArgSample, Method, TestArg, TestTarget,
};
use crate::text::{
    char_vecs_view, chars_of, comment_start, contains_char, is_ws, lemma_split_nonempty,
    join_path, lemma_join_append, lemma_join_split, lemma_split_no_sep, lemma_split_whole, matches_text, push_chars,
    slash_prefixed, split_on, split_seq, split_words, strip_comment, strip_leading_slashes,
    string_of, words,
};

verus! {

/// Server testing configuration object
#[derive(Debug, Clone)]
pub struct Config {
    pub targets: Vec<TestTarget>,
}

/// Why a configuration, or a part of one, could not be read.
#[derive(Debug, PartialEq)]
pub enum ConfigError {
    /// The file is neither a routes file nor JSON nor YAML.
    UnsupportedFile,
    /// A route's URI holds a `*` wildcard.
    WildcardRoute { uri: String },
}

/// The formats that a configuration file can be written in.
#[derive(Debug, Copy, Clone, PartialEq, Eq, Structural)]
pub enum ConfigFormat {
    /// A Play Framework (v2) "routes" file.
    Routes,
    /// A JSON document.
    Json,
    /// A YAML document.
    Yaml,
}

impl ConfigError {
    /// The text that describes the error.
    pub open spec fn message_view(self) -> Seq<char> {
        match self {
            ConfigError::UnsupportedFile => "Unsupported configuration file: must be .json .yml)"@,
            ConfigError::WildcardRoute { uri } => "could not read URI '"@ + uri@
                + "': routes with wildcard '*' are currently not supported"@,
        }
    }

    /// The text that describes the error.
    pub fn message(&self) -> (r: String)
        ensures
            r@ == self.message_view(),
    {
        match self {
            ConfigError::UnsupportedFile => {
                "Unsupported configuration file: must be .json .yml)".to_owned()
            },
            ConfigError::WildcardRoute { uri } => {
                let mut m: String = "could not read URI '".to_owned();
                m.append(uri.as_str());
                m.append("': routes with wildcard '*' are currently not supported");
                m
            },
        }
    }
}

/// A path component that names a parameter of the route (`:name`).
pub open spec fn is_param(c: Seq<char>) -> bool {
    c.len() > 0 && c[0] == ':'
}

/// Reads the components of a route's URI, in order: the endpoint built so
/// far, the arguments (`None` for a parameter, `Some(text)` for a literal
/// component after the first parameter) and whether a parameter was seen.
/// Literal components before the first parameter make up the endpoint,
/// joined by `/`, where components before the first non-empty one vanish.
pub open spec fn route_parts(comps: Seq<Seq<char>>) -> (Seq<char>, Seq<Option<Seq<char>>>, bool)
    decreases comps.len(),
{
    if comps.len() == 0 {
        (Seq::<char>::empty(), Seq::<Option<Seq<char>>>::empty(), false)
    } else {
        let (base, args, has_param) = route_parts(comps.drop_last());
        let c = comps.last();
        if is_param(c) {
            (base, args.push(None), true)
        } else if !has_param {
            if base.len() == 0 {
                (c, args, false)
            } else {
                (base + seq!['/'] + c, args, false)
            }
        } else {
            (base, args.push(Some(c)), true)
        }
    }
}

/// The endpoint and the argument rules of a route's URI.
pub open spec fn route_of_uri(uri: Seq<char>) -> (Seq<char>, Seq<Option<Seq<char>>>) {
    let p = route_parts(split_seq(uri, '/'));
    (p.0, p.1)
}

/// `arg` is the path argument that `rule` describes: a `Magic` generator
/// for a parameter, a `Fixed` one for a literal component.
pub open spec fn arg_matches(arg: TestArg, rule: Option<Seq<char>>) -> bool {
    match rule {
        None => arg matches TestArg::Path { generator: ArgGenerator::Magic },
        Some(text) => arg matches TestArg::Path { generator: ArgGenerator::Fixed { value } }
            && value@ == text,
    }
}

/// The arguments are those that the rules describe, in order.
pub open spec fn args_match(args: Seq<TestArg>, rules: Seq<Option<Seq<char>>>) -> bool {
    &&& args.len() == rules.len()
    &&& forall|i: int| 0 <= i < args.len() ==> arg_matches(#[trigger] args[i], rules[i])
}

/// The methods that a route line's first word stands for: `*` for all
/// four, in the order `GET`, `POST`, `PUT`, `DELETE`.
pub open spec fn route_methods(w: Seq<char>) -> Seq<Method> {
    if w == "*"@ {
        seq![Method::Get, Method::Post, Method::Put, Method::Delete]
    } else if w == "GET"@ {
        seq![Method::Get]
    } else if w == "POST"@ {
        seq![Method::Post]
    } else if w == "PUT"@ {
        seq![Method::Put]
    } else if w == "DELETE"@ {
        seq![Method::Delete]
    } else {
        Seq::<Method>::empty()
    }
}

/// The routes of one line: a line cut at its first `#` whose first two
/// words are a method (or `*`) and a URI.
pub open spec fn line_routes(line: Seq<char>) -> Seq<(Method, Seq<char>)> {
    let w = words(strip_comment(line));
    if w.len() < 2 {
        Seq::<(Method, Seq<char>)>::empty()
    } else {
        route_methods(w[0]).map_values(|m: Method| (m, w[1]))
    }
}

/// The routes of several lines, in order.
pub open spec fn lines_routes(lines: Seq<Seq<char>>) -> Seq<(Method, Seq<char>)>
    decreases lines.len(),
{
    if lines.len() == 0 {
        Seq::<(Method, Seq<char>)>::empty()
    } else {
        lines_routes(lines.drop_last()) + line_routes(lines.last())
    }
}

/// The routes of a routes file's text, in order.
pub open spec fn text_routes(text: Seq<char>) -> Seq<(Method, Seq<char>)> {
    lines_routes(split_seq(text, '\n'))
}

/// The routes whose URI holds no `*`, in order.
pub open spec fn accepted_routes(routes: Seq<(Method, Seq<char>)>) -> Seq<(Method, Seq<char>)>
    decreases routes.len(),
{
    if routes.len() == 0 {
        routes
    } else {
        let a = accepted_routes(routes.drop_last());
        if routes.last().1.contains('*') {
            a
        } else {
            a.push(routes.last())
        }
    }
}

/// The URIs that hold a `*`, in order.
pub open spec fn refused_uris(routes: Seq<(Method, Seq<char>)>) -> Seq<Seq<char>>
    decreases routes.len(),
{
    if routes.len() == 0 {
        Seq::<Seq<char>>::empty()
    } else {
        let e = refused_uris(routes.drop_last());
        if routes.last().1.contains('*') {
            e.push(routes.last().1)
        } else {
            e
        }
    }
}

/// `target` is the test target of the route `(method, uri)`.
pub open spec fn target_of_route(target: TestTarget, method: Method, uri: Seq<char>) -> bool {
    &&& target.method_view() == method
    &&& target.endpoint_view() == route_of_uri(uri).0
    &&& args_match(target.args_view(), route_of_uri(uri).1)
}

/// The targets are those of the routes, in order.
pub open spec fn targets_of_routes(
    targets: Seq<TestTarget>,
    routes: Seq<(Method, Seq<char>)>,
) -> bool {
    &&& targets.len() == routes.len()
    &&& forall|i: int|
        0 <= i < targets.len() ==> target_of_route(
            #[trigger] targets[i],
            routes[i].0,
            routes[i].1,
        )
}

/// The errors are those of the refused URIs, in order.
pub open spec fn errors_of_uris(errors: Seq<ConfigError>, uris: Seq<Seq<char>>) -> bool {
    &&& errors.len() == uris.len()
    &&& forall|i: int|
        0 <= i < errors.len() ==> (#[trigger] errors[i] matches ConfigError::WildcardRoute {
            uri,
        } && uri@ == uris[i])
}

impl Config {
    /// The format of a configuration file, from its file name and its
    /// extension: a file named `routes` is a routes file, one with the
    /// extension `json` is JSON and one with `yml` or `yaml` is YAML.
    pub fn format_of(file_name: Option<&str>, extension: Option<&str>) -> (r: Result<
        ConfigFormat,
        ConfigError,
    >)
        ensures
            (file_name matches Some(f) && f@ == "routes"@) ==> r == Ok::<
                ConfigFormat,
                ConfigError,
            >(ConfigFormat::Routes),
            !(file_name matches Some(f) && f@ == "routes"@) ==> {
                if extension matches Some(e) && e@ == "json"@ {
                    r == Ok::<ConfigFormat, ConfigError>(ConfigFormat::Json)
                } else if extension matches Some(e) && (e@ == "yml"@ || e@ == "yaml"@) {
                    r == Ok::<ConfigFormat, ConfigError>(ConfigFormat::Yaml)
                } else {
                    r == Err::<ConfigFormat, ConfigError>(ConfigError::UnsupportedFile)
                }
            },
    {
        if let Some(f) = file_name {
            if matches_text(&chars_of(f), "routes") {
                return Ok(ConfigFormat::Routes);
            }
        }
        match extension {
            Some(e) => {
                let cs = chars_of(e);
                if matches_text(&cs, "json") {
                    Ok(ConfigFormat::Json)
                } else if matches_text(&cs, "yml") || matches_text(&cs, "yaml") {
                    Ok(ConfigFormat::Yaml)
                } else {
                    Err(ConfigError::UnsupportedFile)
                }
            },
            None => Err(ConfigError::UnsupportedFile),
        }
    }

    /// The routes of one line of a routes file.
    fn routes_of_line(line: &Vec<char>) -> (r: Vec<(Method, String)>)
        ensures
            r@.len() == line_routes(line@).len(),
            forall|k: int|
                0 <= k < r@.len() ==> (#[trigger] r@[k]).0 == line_routes(line@)[k].0 && r@[k].1@
                    == line_routes(line@)[k].1,
    {
        let end = comment_start(line.as_slice());
        let content = vstd::slice::slice_subrange(line.as_slice(), 0, end);
        assert(content@ == strip_comment(line@));
        let w = split_words(content);
        let mut out: Vec<(Method, String)> = Vec::new();
        if w.len() < 2 {
            return out;
        }
        let ghost ws = words(strip_comment(line@));
        assert(w@[0]@ == ws[0] && w@[1]@ == ws[1]);
        let uri = string_of(w[1].as_slice());
        let first = &w[0];
        let methods: Vec<Method> = if matches_text(first, "*") {
            vec![Method::Get, Method::Post, Method::Put, Method::Delete]
        } else if matches_text(first, "GET") {
            vec![Method::Get]
        } else if matches_text(first, "POST") {
            vec![Method::Post]
        } else if matches_text(first, "PUT") {
            vec![Method::Put]
        } else if matches_text(first, "DELETE") {
            vec![Method::Delete]
        } else {
            Vec::new()
        };
        assert(methods@ == route_methods(ws[0]));
        let mut k: usize = 0;
        while k < methods.len()
            invariant
                k <= methods@.len(),
                methods@ == route_methods(ws[0]),
                line_routes(line@) == route_methods(ws[0]).map_values(|m: Method| (m, ws[1])),
                uri@ == ws[1],
                out@.len() == k,
                forall|j: int|
                    0 <= j < k ==> (#[trigger] out@[j]).0 == methods@[j] && out@[j].1@ == ws[1],
            decreases methods@.len() - k,
        {
            out.push((methods[k], uri.clone()));
            k = k + 1;
        }
        out
    }

    /// Build a configuration from the text of a Play Framework (v2)
    /// "routes" file. Each line, cut at its first `#`, whose first two words
    /// are a method (`GET`, `POST`, `PUT`, `DELETE`, or `*` for all four) and
    /// a URI gives one target per method. Routes whose URI cannot be read
    /// are left out; their errors are returned beside the configuration.
    pub fn from_routes(text: &str) -> (r: (Config, Vec<ConfigError>))
        ensures
            targets_of_routes(r.0.targets@, accepted_routes(text_routes(text@))),
            errors_of_uris(r.1@, refused_uris(text_routes(text@))),
    {
        let cs = chars_of(text);
        let lines = split_on(&cs, '\n');
        let ghost lines_view = char_vecs_view(lines@);
        let mut targets: Vec<TestTarget> = Vec::new();
        let mut errors: Vec<ConfigError> = Vec::new();
        let ghost mut done: Seq<(Method, Seq<char>)> = Seq::empty();
        let mut i: usize = 0;
        assert(lines_view.take(0) == Seq::<Seq<char>>::empty());
        while i < lines.len()
            invariant
                i <= lines@.len(),
                lines_view == char_vecs_view(lines@),
                lines_view == split_seq(cs@, '\n'),
                cs@ == text@,
                done == lines_routes(lines_view.take(i as int)),
                targets_of_routes(targets@, accepted_routes(done)),
                errors_of_uris(errors@, refused_uris(done)),
            decreases lines@.len() - i,
        {
            let routes = Self::routes_of_line(&lines[i]);
            let ghost line = lines_view[i as int];
            assert(lines@[i as int]@ == line);
            let ghost start = done;
            let mut j: usize = 0;
            while j < routes.len()
                invariant
                    j <= routes@.len(),
                    routes@.len() == line_routes(line).len(),
                    forall|k: int|
                        0 <= k < routes@.len() ==> (#[trigger] routes@[k]).0 == line_routes(
                            line,
                        )[k].0 && routes@[k].1@ == line_routes(line)[k].1,
                    done == start + line_routes(line).take(j as int),
                    targets_of_routes(targets@, accepted_routes(done)),
                    errors_of_uris(errors@, refused_uris(done)),
                decreases routes@.len() - j,
            {
                let (method, uri) = (routes[j].0, &routes[j].1);
                let ghost route = line_routes(line)[j as int];
                assert(route.0 == method && route.1 == uri@);
                let ghost before = done;
                proof {
                    done = done.push(route);
                    assert(done.drop_last() == before);
                    assert(line_routes(line).take(j + 1) == line_routes(line).take(j as int).push(
                        route,
                    ));
                }
                match Self::parse_route_uri(uri.as_str()) {
                    Ok((endpoint, args)) => {
                        let target = TestTarget::new(endpoint, method, args);
                        targets.push(target);
                        assert(targets_of_routes(targets@, accepted_routes(done))) by {
                            assert(accepted_routes(done) == accepted_routes(before).push(route));
                            assert forall|k: int| 0 <= k < targets@.len() implies target_of_route(
                                #[trigger] targets@[k],
                                accepted_routes(done)[k].0,
                                accepted_routes(done)[k].1,
                            ) by {
                                if k < targets@.len() - 1 {
                                    assert(target_of_route(
                                        targets@[k],
                                        accepted_routes(before)[k].0,
                                        accepted_routes(before)[k].1,
                                    ));
                                }
                            }
                        }
                    },
                    Err(e) => {
                        errors.push(e);
                        assert(errors_of_uris(errors@, refused_uris(done))) by {
                            assert(refused_uris(done) == refused_uris(before).push(route.1));
                        }
                    },
                }
                j = j + 1;
            }
            proof {
                let taken = lines_view.take((i + 1) as int);
                assert(taken.drop_last() == lines_view.take(i as int));
                assert(taken.last() == line);
                assert(line_routes(line).take(routes@.len() as int) == line_routes(line));
            }
            i = i + 1;
        }
        assert(lines_view.take(lines@.len() as int) == lines_view);
        (Config { targets }, errors)
    }

    /// Reads the URI of a route into an endpoint and path arguments:
    /// components up to the first parameter (`:name`) form the endpoint;
    /// each parameter becomes a `Magic` argument and each later literal
    /// component a `Fixed` one. A URI with a `*` wildcard is refused.
    pub fn parse_route_uri(uri: &str) -> (r: Result<(String, Vec<TestArg>), ConfigError>)
        ensures
            r is Err <==> uri@.contains('*'),
            r matches Err(e) ==> (e matches ConfigError::WildcardRoute { uri: u } && u@ == uri@),
            r matches Ok((endpoint, args)) ==> endpoint@ == route_of_uri(uri@).0 && args_match(
                args@,
                route_of_uri(uri@).1,
            ),
    {
        let cs = chars_of(uri);
        if contains_char(&cs, '*') {
            return Err(ConfigError::WildcardRoute { uri: uri.to_owned() });
        }
        let comps = split_on(&cs, '/');
        let ghost comps_view = char_vecs_view(comps@);
        let mut base_endpoint = String::new();
        let mut args: Vec<TestArg> = Vec::new();
        let mut has_param = false;
        let mut i: usize = 0;
        assert(comps_view.take(0) == Seq::<Seq<char>>::empty());
        while i < comps.len()
            invariant
                i <= comps@.len(),
                comps_view == char_vecs_view(comps@),
                base_endpoint@ == route_parts(comps_view.take(i as int)).0,
                args_match(args@, route_parts(comps_view.take(i as int)).1),
                has_param == route_parts(comps_view.take(i as int)).2,
            decreases comps@.len() - i,
        {
            let ghost taken = comps_view.take((i + 1) as int);
            assert(taken.drop_last() == comps_view.take(i as int));
            assert(taken.last() == comps@[i as int]@);
            let ghost prev = route_parts(comps_view.take(i as int));
            let component = &comps[i];
            if component.len() > 0 && component[0] == ':' {
                args.push(TestArg::Path { generator: ArgGenerator::Magic });
                has_param = true;
                assert(args_match(args@, prev.1.push(None))) by {
                    assert forall|j: int| 0 <= j < args@.len() implies arg_matches(
                        #[trigger] args@[j],
                        prev.1.push(None)[j],
                    ) by {
                        if j < args@.len() - 1 {
                            assert(arg_matches(args@[j], prev.1[j]));
                        }
                    }
                }
            } else if !has_param {
                if !base_endpoint.as_str().is_empty() {
                    push_char_slash(&mut base_endpoint);
                }
                push_chars(&mut base_endpoint, component.as_slice());
            } else {
                let value = string_of(component.as_slice());
                args.push(TestArg::Path { generator: ArgGenerator::Fixed { value } });
                assert(args_match(args@, prev.1.push(Some(comps@[i as int]@)))) by {
                    assert forall|j: int| 0 <= j < args@.len() implies arg_matches(
                        #[trigger] args@[j],
                        prev.1.push(Some(comps@[i as int]@))[j],
                    ) by {
                        if j < args@.len() - 1 {
                            assert(arg_matches(args@[j], prev.1[j]));
                        }
                    }
                }
            }
            i = i + 1;
        }
        assert(comps_view.take(comps@.len() as int) == comps_view);
        Ok((base_endpoint, args))
    }
}

proof fn lemma_route_parts_no_params(s: Seq<char>)
    requires
        !s.contains(':'),
    ensures
        route_parts(split_seq(s, '/')) == (
            strip_leading_slashes(s),
            Seq::<Option<Seq<char>>>::empty(),
            false,
        ),
    decreases s.len(),
{
    if s.len() == 0 {
        let comps = split_seq(s, '/');
        assert(comps.drop_last() =~= Seq::<Seq<char>>::empty());
        assert(route_parts(comps.drop_last()).0.len() == 0);
    } else {
        let t = s.drop_last();
        let x = s.last();
        assert(!t.contains(':')) by {
            if t.contains(':') {
                let k = choose|k: int| 0 <= k < t.len() && t[k] == ':';
                assert(s[k] == ':');
            }
        }
        assert(x != ':') by {
            assert(s[s.len() - 1] == x);
        }
        lemma_route_parts_no_params(t);
        lemma_split_nonempty(t, '/');
        let p = split_seq(t, '/');
        if x == '/' {
            assert(split_seq(s, '/').drop_last() == p);
            assert(split_seq(s, '/').last() == Seq::<char>::empty());
            let base = strip_leading_slashes(t);
            assert(base + seq!['/'] + Seq::<char>::empty() == base.push('/'));
            assert(route_parts(split_seq(s, '/')).0 == strip_leading_slashes(s));
        } else {
            let q = split_seq(s, '/');
            let c = p.last();
            assert(q.drop_last() == p.drop_last());
            assert(q.last() == c.push(x));
            assert(!is_param(c));
            assert(!is_param(c.push(x))) by {
                if c.len() > 0 {
                    assert(c.push(x)[0] == c[0]);
                } else {
                    assert(c.push(x)[0] == x);
                }
            }
            let prev = route_parts(p.drop_last());
            assert(!prev.2 && prev.1.len() == 0);
            if prev.0.len() == 0 {
                assert(c.push(x) == strip_leading_slashes(t).push(x));
            } else {
                assert(prev.0 + seq!['/'] + c.push(x) == (prev.0 + seq!['/'] + c).push(x));
            }
            assert(route_parts(q).0 == strip_leading_slashes(s));
            assert(route_parts(q).1 == Seq::<Option<Seq<char>>>::empty());
        }
    }
}

/// A route whose URI names no parameter (no `:`) has no generated
/// arguments, and its endpoint is its URI without the leading `/`s.
pub proof fn law_route_without_params(uri: Seq<char>)
    requires
        !uri.contains(':'),
    ensures
        route_of_uri(uri) == (strip_leading_slashes(uri), Seq::<Option<Seq<char>>>::empty()),
{
    lemma_route_parts_no_params(uri);
}

/// Every route of a routes file either becomes a target or is reported as
/// an error: none is lost and none counted twice.
pub proof fn law_routes_accounted(routes: Seq<(Method, Seq<char>)>)
    ensures
        accepted_routes(routes).len() + refused_uris(routes).len() == routes.len(),
    decreases routes.len(),
{
    if routes.len() > 0 {
        law_routes_accounted(routes.drop_last());
    }
}

/// Wildcard routes are refused and all others kept: no kept route's URI
/// holds a `*`, every refused URI holds one, every route without a `*` is
/// kept and the URI of every route with one is refused.
pub proof fn law_wildcard_routes_refused(routes: Seq<(Method, Seq<char>)>)
    ensures
        forall|i: int|
            0 <= i < accepted_routes(routes).len() ==> !(#[trigger] accepted_routes(
                routes,
            )[i]).1.contains('*'),
        forall|i: int|
            0 <= i < refused_uris(routes).len() ==> (#[trigger] refused_uris(routes)[i]).contains(
                '*',
            ),
        forall|i: int|
            0 <= i < routes.len() && !(#[trigger] routes[i]).1.contains('*')
                ==> accepted_routes(routes).contains(routes[i]),
        forall|i: int|
            0 <= i < routes.len() && (#[trigger] routes[i]).1.contains('*')
                ==> refused_uris(routes).contains(routes[i].1),
    decreases routes.len(),
{
    if routes.len() > 0 {
        let init = routes.drop_last();
        let x = routes.last();
        law_wildcard_routes_refused(init);
        let a0 = accepted_routes(init);
        let e0 = refused_uris(init);
        let a = accepted_routes(routes);
        let e = refused_uris(routes);
        assert forall|i: int| 0 <= i < routes.len() && !(#[trigger] routes[i]).1.contains('*')
            implies a.contains(routes[i]) by {
            if i < init.len() {
                assert(init[i] == routes[i]);
                let k = choose|k: int| 0 <= k < a0.len() && a0[k] == init[i];
                if !x.1.contains('*') {
                    assert(a[k] == a0[k]);
                }
            } else {
                assert(routes[i] == x);
                assert(a[a.len() - 1] == x);
            }
        }
        assert forall|i: int| 0 <= i < routes.len() && (#[trigger] routes[i]).1.contains('*')
            implies e.contains(routes[i].1) by {
            if i < init.len() {
                assert(init[i] == routes[i]);
                let k = choose|k: int| 0 <= k < e0.len() && e0[k] == init[i].1;
                if x.1.contains('*') {
                    assert(e[k] == e0[k]);
                }
            } else {
                assert(routes[i] == x);
                assert(e[e.len() - 1] == x.1);
            }
        }
    }
}

/// A route line starting with `*` stands for the same URI requested with
/// `GET`, `POST`, `PUT` and `DELETE`, in that order.
pub proof fn law_wildcard_method(line: Seq<char>)
    requires
        words(strip_comment(line)).len() >= 2,
        words(strip_comment(line))[0] == "*"@,
    ensures
        ({
            let uri = words(strip_comment(line))[1];
            line_routes(line) == seq![
                (Method::Get, uri),
                (Method::Post, uri),
                (Method::Put, uri),
                (Method::Delete, uri),
            ]
        }),
{
    let uri = words(strip_comment(line))[1];
    assert(line_routes(line) =~= seq![
        (Method::Get, uri),
        (Method::Post, uri),
        (Method::Put, uri),
        (Method::Delete, uri),
    ]);
}

proof fn lemma_blank_has_no_words(s: Seq<char>)
    requires
        forall|i: int| 0 <= i < s.len() ==> is_ws(#[trigger] s[i]),
    ensures
        words(s).len() == 0,
    decreases s.len(),
{
    if s.len() > 0 {
        assert(is_ws(s[s.len() - 1]));
        assert forall|i: int| 0 <= i < s.drop_last().len() implies is_ws(
            #[trigger] s.drop_last()[i],
        ) by {
            assert(s.drop_last()[i] == s[i]);
        }
        lemma_blank_has_no_words(s.drop_last());
    }
}

/// A line that holds nothing but whitespace before its first `#` (a blank
/// line or a comment) gives no route.
pub proof fn law_comment_lines_ignored(line: Seq<char>)
    requires
        forall|i: int|
            0 <= i < strip_comment(line).len() ==> is_ws(#[trigger] strip_comment(line)[i]),
    ensures
        line_routes(line).len() == 0,
{
    lemma_blank_has_no_words(strip_comment(line));
}

/// The argument rule of a path component from the first parameter on: a
/// generated value for a parameter, the component itself otherwise.
pub open spec fn component_rule(c: Seq<char>) -> Option<Seq<char>> {
    if is_param(c) {
        None
    } else {
        Some(c)
    }
}

/// A route URI that starts with `/` and whose first component is a
/// non-empty literal (or that is `/` alone).
pub open spec fn rooted_route(uri: Seq<char>) -> bool {
    let comps = split_seq(uri, '/');
    &&& comps.len() >= 2
    &&& comps[0].len() == 0
    &&& !is_param(comps[1])
    &&& comps[1].len() > 0 || comps.len() == 2
}

/// The components of a route's URI with the drawn texts in place of the
/// components from the first parameter on.
pub open spec fn fill_params(comps: Seq<Seq<char>>, draws: Seq<ArgSample>) -> Seq<Seq<char>> {
    comps.take(comps.len() - draws.len()) + draw_texts(draws)
}

proof fn lemma_route_scan(comps: Seq<Seq<char>>, i: int)
    requires
        2 <= i <= comps.len(),
        comps[0].len() == 0,
        !is_param(comps[1]),
        comps[1].len() > 0 || comps.len() == 2,
    ensures
        ({
            let r = route_parts(comps.take(i));
            let q = i - r.1.len();
            &&& 2 <= q <= i
            &&& r.2 == (r.1.len() > 0)
            &&& forall|j: int|
                0 <= j < r.1.len() ==> r.1[j] == component_rule(#[trigger] comps[q + j])
            &&& seq!['/'] + r.0 == join_path(comps.take(q))
            &&& r.0.len() >= comps[1].len()
            &&& comps[1].len() > 0 ==> r.0[0] == comps[1][0]
        }),
    decreases i,
{
    if i == 2 {
        let t = comps.take(2);
        let z = t.drop_last();
        assert(z.drop_last() =~= Seq::<Seq<char>>::empty());
        assert(route_parts(z.drop_last()) == (
            Seq::<char>::empty(),
            Seq::<Option<Seq<char>>>::empty(),
            false,
        ));
        assert(t.drop_last() =~= seq![comps[0]]);
        assert(comps[0] =~= Seq::<char>::empty());
        assert(t.drop_last().last() == comps[0]);
        assert(!is_param(comps[0]));
        assert(route_parts(t.drop_last()) == (
            Seq::<char>::empty(),
            Seq::<Option<Seq<char>>>::empty(),
            false,
        ));
        assert(t.last() == comps[1]);
        assert(join_path(t.drop_last()) == comps[0]);
        assert(seq!['/'] + comps[1] =~= comps[0] + seq!['/'] + comps[1]);
    } else {
        lemma_route_scan(comps, i - 1);
        let t = comps.take(i);
        assert(t.drop_last() == comps.take(i - 1));
        assert(t.last() == comps[i - 1]);
        let prev = route_parts(comps.take(i - 1));
        let q = i - 1 - prev.1.len();
        let c = comps[i - 1];
        let r = route_parts(t);
        if is_param(c) || prev.2 {
            assert(r.1 == prev.1.push(component_rule(c)));
            assert forall|j: int| 0 <= j < r.1.len() implies r.1[j] == component_rule(
                #[trigger] comps[q + j],
            ) by {
                if j < prev.1.len() {
                    assert(r.1[j] == prev.1[j]);
                }
            }
        } else {
            assert(prev.1.len() == 0);
            assert(q == i - 1);
            assert(prev.0.len() > 0);
            assert(r.0 == prev.0 + seq!['/'] + c);
            let tq = comps.take(i);
            assert(tq.drop_last() == comps.take(i - 1));
            assert(join_path(tq) == join_path(comps.take(i - 1)) + seq!['/'] + c);
            assert(seq!['/'] + r.0 =~= seq!['/'] + prev.0 + seq!['/'] + c);
            if comps[1].len() > 0 {
                assert(r.0[0] == prev.0[0]);
            }
        }
    }
}

/// The request URI of a route's target is the base URL followed by the
/// route's URI in which every parameter component is replaced by a drawn
/// value and every other component is kept, for a route that starts with
/// `/` and a literal component; `TestTarget::sample` returns the parse of
/// that text.
pub proof fn law_route_target_uri(
    base: Seq<char>,
    method: Method,
    uri: Seq<char>,
    target: TestTarget,
    draws: Seq<ArgSample>,
)
    requires
        rooted_route(uri),
        target_of_route(target, method, uri),
        target.draws_fit(draws),
    ensures
        join_path(split_seq(uri, '/')) == uri,
        fill_params(split_seq(uri, '/'), draws).len() == split_seq(uri, '/').len(),
        forall|i: int|
            0 <= i < split_seq(uri, '/').len() && !is_param(#[trigger] split_seq(uri, '/')[i])
                ==> fill_params(split_seq(uri, '/'), draws)[i] == split_seq(uri, '/')[i],
        built_uri(base, target.endpoint_view(), draws) == base + join_path(
            fill_params(split_seq(uri, '/'), draws),
        ),
        parsed_uri(built_uri(base, target.endpoint_view(), draws)) == parsed_uri(
            base + join_path(fill_params(split_seq(uri, '/'), draws)),
        ),
{
    let comps = split_seq(uri, '/');
    lemma_join_split(uri);
    lemma_split_no_sep(uri, '/');
    lemma_route_scan(comps, comps.len() as int);
    assert(comps.take(comps.len() as int) == comps);
    let r = route_parts(comps);
    let rules = r.1;
    let q = comps.len() - rules.len();
    let args = target.args_view();
    assert(args_match(args, rules));
    assert(draws.len() == rules.len());
    assert forall|j: int| 0 <= j < draws.len() implies #[trigger] draws[j] is Path && (
    rules[j] matches Some(t) ==> draw_text(draws[j]) == t) by {
        assert(sample_fits(args[j], draws[j]));
        assert(arg_matches(args[j], rules[j]));
    }
    let fill = fill_params(comps, draws);
    let texts = draw_texts(draws);
    assert forall|i: int| 0 <= i < comps.len() && !is_param(#[trigger] comps[i]) implies fill[i]
        == comps[i] by {
        if i >= q {
            assert(rules[i - q] == component_rule(comps[q + (i - q)]));
            assert(draws[i - q] is Path);
            assert(fill[i] == texts[i - q]);
        }
    }
    lemma_path_draws(draws);
    let b = r.0;
    assert(!(b.len() > 0 && b[0] == '/')) by {
        if comps[1].len() > 0 {
            assert(comps[1][0] != '/');
        } else {
            assert(q == 2);
            assert(comps.take(2) =~= seq![comps[0], comps[1]]);
            assert(join_path(comps.take(2)) == join_path(comps.take(2).drop_last()) + seq!['/']
                + comps[1]);
            assert(comps.take(2).drop_last() =~= seq![comps[0]]);
            assert((seq!['/'] + b).len() == 1);
        }
    }
    assert(uri_prefix(base, b) == base + seq!['/'] + b);
    lemma_join_append(comps.take(q), texts);
    assert(built_uri(base, b, draws) =~= base + (seq!['/'] + b) + slash_prefixed(texts));
    assert(fill == comps.take(q) + texts);
    assert(built_uri(base, b, draws) == base + join_path(fill));
}

/// A route line whose first word is a method's HTTP name (`GET`, `PUT`,
/// `POST` or `DELETE`) gives exactly one route, requested with that very
/// method; `*` gives all four.
pub proof fn law_route_method_is_named_method(m: Method, line: Seq<char>)
    ensures
        m.name() == match m {
            Method::Get => "GET"@,
            Method::Put => "PUT"@,
            Method::Post => "POST"@,
            Method::Delete => "DELETE"@,
        },
        route_methods(m.name()) == seq![m],
        route_methods("*"@) == seq![Method::Get, Method::Post, Method::Put, Method::Delete],
        words(strip_comment(line)).len() >= 2 && words(strip_comment(line))[0] == m.name()
            ==> line_routes(line) == seq![(m, words(strip_comment(line))[1])],
        !line.contains('\n') ==> text_routes(line) == line_routes(line),
{
    if !line.contains('\n') {
        lemma_split_whole(line, '\n');
        let ls = seq![line];
        assert(ls.drop_last() =~= Seq::<Seq<char>>::empty());
        assert(ls.last() == line);
        assert(lines_routes(ls.drop_last()) == Seq::<(Method, Seq<char>)>::empty());
        assert(lines_routes(ls) == Seq::<(Method, Seq<char>)>::empty() + line_routes(line));
        assert(Seq::<(Method, Seq<char>)>::empty() + line_routes(line) =~= line_routes(line));
    }
    reveal_strlit("*");
    reveal_strlit("GET");
    reveal_strlit("PUT");
    reveal_strlit("POST");
    reveal_strlit("DELETE");
    assert("*"@.len() != "GET"@.len() && "*"@.len() != "POST"@.len());
    assert("*"@.len() != "PUT"@.len() && "*"@.len() != "DELETE"@.len());
    assert("GET"@.len() != "POST"@.len() && "GET"@.len() != "DELETE"@.len());
    assert("PUT"@.len() != "POST"@.len() && "PUT"@.len() != "DELETE"@.len());
    assert("POST"@.len() != "DELETE"@.len());
    assert("PUT"@[0] != "GET"@[0]);
    let w = words(strip_comment(line));
    if w.len() >= 2 && w[0] == m.name() {
        assert(line_routes(line) =~= seq![(m, w[1])]);
    }
}

/// Appends a `/`.
fn push_char_slash(s: &mut String)
    ensures
        final(s)@ == old(s)@ + seq!['/'],
{
    crate::text::push_char(s, '/');
    assert(old(s)@.push('/') == old(s)@ + seq!['/']);
}

} // verus!
