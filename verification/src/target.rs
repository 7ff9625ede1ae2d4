//! Test targets: an endpoint, an HTTP method and the rules by which the
//! arguments of each request are generated at random.
use std::str::FromStr;
use vstd::prelude::*;

use crate::http_types::{parse_uri, parsed_uri};
use crate::rng::{alphanumeric, choose_one, gen_range_i64, gen_range_u8};
use crate::text::{
    slash_prefixed,
    chars_of, decimal, law_decimal_injective, is_ascii_alnum, is_ascii_digit, matches_text, push_char, push_decimal,
};

verus! {

/// The HTTP methods that a target can be tested with.
#[derive(Debug, Copy, Clone, PartialEq, Eq, Structural)]
pub enum Method {
    Get,
    Put,
    Post,
    Delete,
}

/// The spellings that `Method::from_name` accepts, and the method of each.
pub open spec fn method_of_name(s: Seq<char>) -> Option<Method> {
    if s == "GET"@ || s == "get"@ || s == "Get"@ {
        Some(Method::Get)
    } else if s == "PUT"@ || s == "put"@ || s == "Put"@ {
        Some(Method::Put)
    } else if s == "POST"@ || s == "post"@ || s == "Post"@ {
        Some(Method::Post)
    } else if s == "DELETE"@ || s == "delete"@ || s == "Delete"@ {
        Some(Method::Delete)
    } else {
        None
    }
}

impl Method {
    /// The method's name as HTTP writes it.
    pub open spec fn name(self) -> Seq<char> {
        match self {
            Method::Get => "GET"@,
            Method::Put => "PUT"@,
            Method::Post => "POST"@,
            Method::Delete => "DELETE"@,
        }
    }

    /// The method's name as HTTP writes it.
    pub fn as_str(&self) -> (r: &'static str)
        ensures
            r@ == self.name(),
    {
        match self {
            Method::Get => "GET",
            Method::Put => "PUT",
            Method::Post => "POST",
            Method::Delete => "DELETE",
        }
    }

    /// Reads a method name in upper case, lower case or capitalized.
    pub fn from_name(s: &str) -> (r: Result<Method, &'static str>)
        ensures
            method_of_name(s@) matches Some(m) ==> r == Ok::<Method, &'static str>(m),
            method_of_name(s@) is None ==> (r matches Err(e) && e@ == "Invalid method"@),
    {
        let cs = chars_of(s);
        if matches_text(&cs, "GET") || matches_text(&cs, "get") || matches_text(&cs, "Get") {
            Ok(Method::Get)
        } else if matches_text(&cs, "PUT") || matches_text(&cs, "put") || matches_text(&cs, "Put")
        {
            Ok(Method::Put)
        } else if matches_text(&cs, "POST") || matches_text(&cs, "post") || matches_text(
            &cs,
            "Post",
        ) {
            Ok(Method::Post)
        } else if matches_text(&cs, "DELETE") || matches_text(&cs, "delete") || matches_text(
            &cs,
            "Delete",
        ) {
            Ok(Method::Delete)
        } else {
            Err("Invalid method")
        }
    }
}

impl FromStr for Method {
    type Err = &'static str;

    fn from_str(s: &str) -> (r: Result<Self, Self::Err>)
        ensures
            method_of_name(s@) matches Some(m) ==> r == Ok::<Method, &'static str>(m),
            method_of_name(s@) is None ==> (r matches Err(e) && e@ == "Invalid method"@),
    {
        Method::from_name(s)
    }
}

/// The values that a `Magic` generator draws from: those that the README's
/// example requests show for generated parameters (`0`, `-1`, `null`,
/// `undefined`, an empty value and `false`).
pub open spec fn magic_values() -> Seq<Seq<char>> {
    seq!["0"@, "-1"@, "null"@, "undefined"@, ""@, "false"@]
}

/// A rule by which one argument text is generated.
#[derive(Debug, PartialEq)]
pub enum ArgGenerator {
    /// Always provide the given string
    Fixed { value: String },
    /// Choose one of the given arguments at random
    Choice { values: Vec<String> },
    /// Choose a random number from the given range
    IntRange { low: i64, high: i64 },
    /// Build a numeric sequence with the given length
    Numeric { len: u32 },
    /// Build an alphanumeric sequence with the given length
    AlphaNumeric { len: u32 },
    /// Choose one of the given generators at random (OR)
    Union { generators: Vec<ArgGenerator> },
    /// Choose one of a few values that servers often mishandle: `0`, `-1`,
    /// `null`, `undefined`, an empty value or `false`, the values that the
    /// README's example requests show for generated parameters
    Magic,
}

impl ArgGenerator {
    /// The generator can sample: every integer range it holds is non-empty.
    pub open spec fn valid(self) -> bool
        decreases self,
    {
        match self {
            ArgGenerator::IntRange { low, high } => low < high,
            ArgGenerator::Union { generators } => forall|i: int|
                0 <= i < generators@.len() ==> (#[trigger] generators@[i]).valid(),
            _ => true,
        }
    }

    /// `s` is one of the texts that the generator can produce.
    pub open spec fn can_sample(self, s: Seq<char>) -> bool
        decreases self,
    {
        match self {
            ArgGenerator::Fixed { value } => s == value@,
            ArgGenerator::Choice { values } => if values@.len() == 0 {
                s.len() == 0
            } else {
                exists|i: int| 0 <= i < values@.len() && s == (#[trigger] values@[i])@
            },
            ArgGenerator::IntRange { low, high } => exists|n: i64|
                low <= n < high && s == #[trigger] decimal(n as int),
            ArgGenerator::Numeric { len } => s.len() == len && forall|i: int|
                0 <= i < s.len() ==> is_ascii_digit(#[trigger] s[i]),
            ArgGenerator::AlphaNumeric { len } => s.len() == len && forall|i: int|
                0 <= i < s.len() ==> is_ascii_alnum(#[trigger] s[i]),
            ArgGenerator::Union { generators } => if generators@.len() == 0 {
                s.len() == 0
            } else {
                exists|i: int|
                    0 <= i < generators@.len() && (#[trigger] generators@[i]).can_sample(s)
            },
            ArgGenerator::Magic => magic_values().contains(s),
        }
    }

    /// The generator's text is known without a random draw: a fixed text,
    /// an empty choice or an empty union.
    pub open spec fn draws_nothing(self) -> bool {
        ||| self is Fixed
        ||| (self matches ArgGenerator::Choice { values } && values@.len() == 0)
        ||| (self matches ArgGenerator::Union { generators } && generators@.len() == 0)
    }

    /// Whether every integer range of the generator is non-empty.
    #[verifier::loop_isolation(false)]
    pub fn is_valid(&self) -> (r: bool)
        ensures
            r == self.valid(),
        decreases self,
    {
        match self {
            ArgGenerator::IntRange { low, high } => *low < *high,
            ArgGenerator::Union { generators } => {
                let mut i: usize = 0;
                while i < generators.len()
                    invariant
                        i <= generators@.len(),
                        forall|j: int| 0 <= j < i ==> (#[trigger] generators@[j]).valid(),
                    decreases generators@.len() - i,
                {
                    let g = &generators[i];
                    proof {
                        assert(decreases_to!(*self => *g));
                    }
                    if !g.is_valid() {
                        assert(!generators@[i as int].valid());
                        return false;
                    }
                    i = i + 1;
                }
                true
            },
            _ => true,
        }
    }

    /// Randomly sample a value for use in the test.
    pub fn sample(&self, rng: &mut rand_pcg::Mcg128Xsl64) -> (r: String)
        requires
            self.valid(),
        ensures
            self.can_sample(r@),
            self.draws_nothing() ==> *final(rng) == *old(rng),
        decreases self,
    {
        match self {
            ArgGenerator::Fixed { value } => value.clone(),
            ArgGenerator::Choice { values } => {
                if values.len() == 0 {
                    String::new()
                } else {
                    match choose_one(values.as_slice(), rng) {
                        Some(v) => v.clone(),
                        None => String::new(),
                    }
                }
            },
            ArgGenerator::Union { generators } => {
                if generators.len() == 0 {
                    String::new()
                } else {
                    match choose_one(generators.as_slice(), rng) {
                        Some(g) => {
                            proof {
                                let i = choose|i: int|
                                    0 <= i < generators@.len() && generators@[i] == *g;
                                assert(generators@[i].valid());
                            }
                            let s = g.sample(rng);
                            s
                        },
                        None => String::new(),
                    }
                }
            },
            ArgGenerator::IntRange { low, high } => {
                let n = gen_range_i64(rng, *low, *high);
                let mut s = String::new();
                push_decimal(&mut s, n);
                assert(s@ == decimal(n as int));
                s
            },
            ArgGenerator::Numeric { len } => {
                let mut s = String::new();
                let mut k: u32 = 0;
                while k < *len
                    invariant
                        k <= *len,
                        s@.len() == k,
                        forall|i: int| 0 <= i < s@.len() ==> is_ascii_digit(#[trigger] s@[i]),
                    decreases *len - k,
                {
                    let d = gen_range_u8(rng, 48u8, 58u8);
                    push_char(&mut s, d as char);
                    k = k + 1;
                }
                s
            },
            ArgGenerator::AlphaNumeric { len } => {
                let mut s = String::new();
                let mut k: u32 = 0;
                while k < *len
                    invariant
                        k <= *len,
                        s@.len() == k,
                        forall|i: int| 0 <= i < s@.len() ==> is_ascii_alnum(#[trigger] s@[i]),
                    decreases *len - k,
                {
                    let c = alphanumeric(rng);
                    push_char(&mut s, c);
                    k = k + 1;
                }
                s
            },
            ArgGenerator::Magic => {
                let values: Vec<&str> = vec!["0", "-1", "null", "undefined", "", "false"];
                match choose_one(values.as_slice(), rng) {
                    Some(v) => {
                        let s: String = (*v).to_owned();
                        proof {
                            let i = choose|i: int| 0 <= i < values@.len() && values@[i] == *v;
                            assert(magic_values()[i] == s@);
                        }
                        s
                    },
                    None => String::new(),
                }
            },
        }
    }
}

impl ArgGenerator {
    /// `self` and `other` are the same rule: same kind, same texts, same
    /// bounds, and, for a union, the same rules in the same order.
    pub open spec fn same_as(self, other: ArgGenerator) -> bool
        decreases self,
    {
        match self {
            ArgGenerator::Fixed { value } => other matches ArgGenerator::Fixed { value: v }
                && v@ == value@,
            ArgGenerator::Choice { values } => other matches ArgGenerator::Choice { values: vs }
                && vs@.len() == values@.len() && forall|i: int|
                0 <= i < values@.len() ==> (#[trigger] vs@[i])@ == values@[i]@,
            ArgGenerator::IntRange { low, high } => other == (ArgGenerator::IntRange { low, high }),
            ArgGenerator::Numeric { len } => other == (ArgGenerator::Numeric { len }),
            ArgGenerator::AlphaNumeric { len } => other == (ArgGenerator::AlphaNumeric { len }),
            ArgGenerator::Union { generators } => other matches ArgGenerator::Union {
                generators: gs,
            } && gs@.len() == generators@.len() && forall|i: int|
                0 <= i < generators@.len() ==> (#[trigger] generators@[i]).same_as(gs@[i]),
            ArgGenerator::Magic => other is Magic,
        }
    }
}

impl Clone for ArgGenerator {
    #[verifier::loop_isolation(false)]
    fn clone(&self) -> (r: Self)
        ensures
            self.same_as(r),
        decreases self,
    {
        match self {
            ArgGenerator::Fixed { value } => ArgGenerator::Fixed { value: value.clone() },
            ArgGenerator::Choice { values } => {
                let mut out: Vec<String> = Vec::new();
                let mut i: usize = 0;
                while i < values.len()
                    invariant
                        i <= values@.len(),
                        out@.len() == i,
                        forall|j: int| 0 <= j < i ==> (#[trigger] out@[j])@ == values@[j]@,
                    decreases values@.len() - i,
                {
                    out.push(values[i].clone());
                    i = i + 1;
                }
                ArgGenerator::Choice { values: out }
            },
            ArgGenerator::IntRange { low, high } => {
                ArgGenerator::IntRange { low: *low, high: *high }
            },
            ArgGenerator::Numeric { len } => ArgGenerator::Numeric { len: *len },
            ArgGenerator::AlphaNumeric { len } => ArgGenerator::AlphaNumeric { len: *len },
            ArgGenerator::Union { generators } => {
                let mut out: Vec<ArgGenerator> = Vec::new();
                let mut i: usize = 0;
                while i < generators.len()
                    invariant
                        i <= generators@.len(),
                        out@.len() == i,
                        forall|j: int|
                            0 <= j < i ==> (#[trigger] generators@[j]).same_as(out@[j]),
                    decreases generators@.len() - i,
                {
                    let g = &generators[i];
                    proof {
                        assert(decreases_to!(*self => *g));
                    }
                    out.push(g.clone());
                    i = i + 1;
                }
                ArgGenerator::Union { generators: out }
            },
            ArgGenerator::Magic => ArgGenerator::Magic,
        }
    }
}

/// One argument of the requests made to a target.
#[derive(Debug, PartialEq)]
pub enum TestArg {
    /// relative path of the URI
    Path { generator: ArgGenerator },
    /// query string component
    QueryString { name: ArgGenerator, value: ArgGenerator },
}

impl TestArg {
    /// `self` and `other` are the same argument rule.
    pub open spec fn same_as(self, other: TestArg) -> bool {
        match (self, other) {
            (TestArg::Path { generator: g1 }, TestArg::Path { generator: g2 }) => g1.same_as(g2),
            (
                TestArg::QueryString { name: n1, value: v1 },
                TestArg::QueryString { name: n2, value: v2 },
            ) => n1.same_as(n2) && v1.same_as(v2),
            _ => false,
        }
    }

    /// Every generator of the argument can sample.
    pub open spec fn valid(self) -> bool {
        match self {
            TestArg::Path { generator } => generator.valid(),
            TestArg::QueryString { name, value } => name.valid() && value.valid(),
        }
    }
}

impl Clone for TestArg {
    fn clone(&self) -> (r: Self)
        ensures
            self.same_as(r),
    {
        match self {
            TestArg::Path { generator } => TestArg::Path { generator: generator.clone() },
            TestArg::QueryString { name, value } => {
                TestArg::QueryString { name: name.clone(), value: value.clone() }
            },
        }
    }
}

/// The texts drawn for one argument of a request: a path component, or the
/// name and value of a query-string parameter.
#[derive(Debug, PartialEq)]
pub enum ArgSample {
    Path { value: String },
    Query { name: String, value: String },
}

/// `draw` is of the argument's kind and each of its texts can be produced
/// by the corresponding generator.
pub open spec fn sample_fits(arg: TestArg, draw: ArgSample) -> bool {
    match (arg, draw) {
        (TestArg::Path { generator }, ArgSample::Path { value }) => generator.can_sample(value@),
        (TestArg::QueryString { name, value }, ArgSample::Query { name: n, value: v }) => {
            name.can_sample(n@) && value.can_sample(v@)
        },
        _ => false,
    }
}

/// The base URL followed by the endpoint, joined by a `/` unless the
/// endpoint starts with one.
pub open spec fn uri_prefix(base: Seq<char>, endpoint: Seq<char>) -> Seq<char> {
    if endpoint.len() > 0 && endpoint[0] == '/' {
        base + endpoint
    } else {
        base + seq!['/'] + endpoint
    }
}

/// The path components drawn, each preceded by a `/`.
pub open spec fn path_part(draws: Seq<ArgSample>) -> Seq<char>
    decreases draws.len(),
{
    if draws.len() == 0 {
        Seq::<char>::empty()
    } else {
        let p = path_part(draws.drop_last());
        match draws.last() {
            ArgSample::Path { value } => p + seq!['/'] + value@,
            ArgSample::Query { .. } => p,
        }
    }
}

/// The query string drawn: `?` before the first parameter and `&` before
/// each later one; a parameter whose value is empty has no `=`.
pub open spec fn query_part(draws: Seq<ArgSample>) -> Seq<char>
    decreases draws.len(),
{
    if draws.len() == 0 {
        Seq::<char>::empty()
    } else {
        let q = query_part(draws.drop_last());
        match draws.last() {
            ArgSample::Path { .. } => q,
            ArgSample::Query { name, value } => {
                let sep = if q.len() == 0 {
                    '?'
                } else {
                    '&'
                };
                let assignment = if value@.len() == 0 {
                    Seq::<char>::empty()
                } else {
                    seq!['='] + value@
                };
                q + seq![sep] + name@ + assignment
            },
        }
    }
}

/// The text of the request URI that `draws` give for a target.
pub open spec fn built_uri(base: Seq<char>, endpoint: Seq<char>, draws: Seq<ArgSample>) -> Seq<
    char,
> {
    uri_prefix(base, endpoint) + path_part(draws) + query_part(draws)
}

/// A target of the test: an endpoint, the method it is requested with and
/// the arguments of its requests.
#[derive(Debug, PartialEq)]
pub struct TestTarget {
    /// HTTP endpoint relative to the URI
    endpoint: String,
    /// HTTP method
    method: Method,
    /// The methods to randomly test
    args: Vec<TestArg>,
}

impl Clone for TestTarget {
    fn clone(&self) -> (r: Self)
        ensures
            r.endpoint_view() == self.endpoint_view(),
            r.method_view() == self.method_view(),
            r.args_view().len() == self.args_view().len(),
            forall|i: int|
                0 <= i < self.args_view().len() ==> (#[trigger] self.args_view()[i]).same_as(
                    r.args_view()[i],
                ),
    {
        let mut args: Vec<TestArg> = Vec::new();
        let mut i: usize = 0;
        while i < self.args.len()
            invariant
                i <= self.args@.len(),
                args@.len() == i,
                forall|j: int| 0 <= j < i ==> (#[trigger] self.args@[j]).same_as(args@[j]),
            decreases self.args@.len() - i,
        {
            args.push(self.args[i].clone());
            i = i + 1;
        }
        TestTarget { endpoint: self.endpoint.clone(), method: self.method, args }
    }
}

impl TestTarget {
    /// The endpoint's text.
    pub closed spec fn endpoint_view(self) -> Seq<char> {
        self.endpoint@
    }

    /// The method of the target's requests.
    pub closed spec fn method_view(self) -> Method {
        self.method
    }

    /// The arguments of the target's requests.
    pub closed spec fn args_view(self) -> Seq<TestArg> {
        self.args@
    }

    /// Every generator of the target can sample.
    pub open spec fn valid(self) -> bool {
        forall|i: int| 0 <= i < self.args_view().len() ==> (#[trigger] self.args_view()[i]).valid()
    }

    /// `draws` are texts that the target's arguments can produce, one per
    /// argument, in order.
    pub open spec fn draws_fit(self, draws: Seq<ArgSample>) -> bool {
        &&& draws.len() == self.args_view().len()
        &&& forall|i: int|
            0 <= i < draws.len() ==> sample_fits(self.args_view()[i], #[trigger] draws[i])
    }

    /// A target with the given parts.
    pub fn new(endpoint: String, method: Method, args: Vec<TestArg>) -> (r: TestTarget)
        ensures
            r.endpoint_view() == endpoint@,
            r.method_view() == method,
            r.args_view() == args@,
    {
        TestTarget { endpoint, method, args }
    }

    /// The endpoint.
    pub fn endpoint(&self) -> (r: &str)
        ensures
            r@ == self.endpoint_view(),
    {
        self.endpoint.as_str()
    }

    /// The HTTP method of the target's requests.
    pub fn method(&self) -> (r: Method)
        ensures
            r == self.method_view(),
    {
        self.method
    }

    /// The arguments of the target's requests.
    pub fn args(&self) -> (r: &Vec<TestArg>)
        ensures
            r@ == self.args_view(),
    {
        &self.args
    }

    /// Whether every generator of the target can sample.
    pub fn is_valid(&self) -> (r: bool)
        ensures
            r == self.valid(),
    {
        let mut i: usize = 0;
        while i < self.args.len()
            invariant
                i <= self.args@.len(),
                forall|j: int| 0 <= j < i ==> (#[trigger] self.args_view()[j]).valid(),
            decreases self.args@.len() - i,
        {
            let ok = match &self.args[i] {
                TestArg::Path { generator } => generator.is_valid(),
                TestArg::QueryString { name, value } => name.is_valid() && value.is_valid(),
            };
            if !ok {
                assert(!self.args_view()[i as int].valid());
                return false;
            }
            i = i + 1;
        }
        true
    }

    /// The request URI that the drawn texts give: the base URL, the
    /// endpoint, one path component per path draw and the query string.
    pub fn build_uri(&self, base_url: &str, draws: &[ArgSample]) -> (r: String)
        ensures
            r@ == built_uri(base_url@, self.endpoint_view(), draws@),
    {
        let mut uri: String = base_url.to_owned();
        let ep = chars_of(self.endpoint.as_str());
        if !(ep.len() > 0 && ep[0] == '/') {
            push_char(&mut uri, '/');
        }
        uri.append(self.endpoint.as_str());
        let mut qs = String::new();
        let mut i: usize = 0;
        assert(draws@.take(0) == Seq::<ArgSample>::empty());
        while i < draws.len()
            invariant
                i <= draws@.len(),
                uri@ == uri_prefix(base_url@, self.endpoint@) + path_part(draws@.take(i as int)),
                qs@ == query_part(draws@.take(i as int)),
            decreases draws@.len() - i,
        {
            let ghost taken = draws@.take((i + 1) as int);
            assert(taken.drop_last() == draws@.take(i as int));
            assert(taken.last() == draws@[i as int]);
            match &draws[i] {
                ArgSample::Path { value } => {
                    push_char(&mut uri, '/');
                    uri.append(value.as_str());
                },
                ArgSample::Query { name, value } => {
                    if qs.as_str().is_empty() {
                        push_char(&mut qs, '?');
                    } else {
                        push_char(&mut qs, '&');
                    }
                    qs.append(name.as_str());
                    if !value.as_str().is_empty() {
                        push_char(&mut qs, '=');
                        qs.append(value.as_str());
                    }
                },
            }
            i = i + 1;
        }
        assert(draws@.take(draws@.len() as int) == draws@);
        uri.append(qs.as_str());
        uri
    }

    /// Draws the texts of one request's arguments, in order.
    pub fn draw_samples(&self, rng: &mut rand_pcg::Mcg128Xsl64) -> (r: Vec<ArgSample>)
        requires
            self.valid(),
        ensures
            self.draws_fit(r@),
    {
        let mut out: Vec<ArgSample> = Vec::new();
        let mut i: usize = 0;
        while i < self.args.len()
            invariant
                i <= self.args@.len(),
                self.valid(),
                out@.len() == i,
                forall|j: int| 0 <= j < i ==> sample_fits(self.args@[j], #[trigger] out@[j]),
            decreases self.args@.len() - i,
        {
            assert(self.args_view()[i as int].valid());
            let draw = match &self.args[i] {
                TestArg::Path { generator } => ArgSample::Path { value: generator.sample(rng) },
                TestArg::QueryString { name, value } => {
                    let n = name.sample(rng);
                    let v = value.sample(rng);
                    ArgSample::Query { name: n, value: v }
                },
            };
            out.push(draw);
            i = i + 1;
        }
        out
    }

    /// Randomly build an HTTP request in order to test this target.
    pub fn sample(&self, base_url: &str, rng: &mut rand_pcg::Mcg128Xsl64) -> (r: Result<
        http::Uri,
        http::uri::InvalidUri,
    >)
        requires
            self.valid(),
        ensures
            exists|draws: Seq<ArgSample>|
                self.draws_fit(draws) && r == parsed_uri(
                    #[trigger] built_uri(base_url@, self.endpoint_view(), draws),
                ),
    {
        let draws = self.draw_samples(rng);
        let text = self.build_uri(base_url, draws.as_slice());
        let r = parse_uri(text.as_str());
        assert(self.draws_fit(draws@) && r == parsed_uri(
            built_uri(base_url@, self.endpoint_view(), draws@),
        ));
        r
    }
}

/// Reading a method's name gives the method back: the conversion of a
/// method to its HTTP name and `Method::from_name` undo each other.
pub proof fn law_method_name_round_trip(m: Method)
    ensures
        method_of_name(m.name()) == Some(m),
{
    reveal_strlit("GET");
    reveal_strlit("get");
    reveal_strlit("Get");
    reveal_strlit("PUT");
    reveal_strlit("put");
    reveal_strlit("Put");
    reveal_strlit("POST");
    reveal_strlit("post");
    reveal_strlit("Post");
    reveal_strlit("DELETE");
    reveal_strlit("delete");
    reveal_strlit("Delete");
    match m {
        Method::Get => {},
        Method::Put => {
            assert("PUT"@[0] != "GET"@[0] && "PUT"@[0] != "get"@[0] && "PUT"@[0] != "Get"@[0]);
        },
        Method::Post => {
            assert("POST"@.len() != "GET"@.len() && "POST"@.len() != "get"@.len());
            assert("POST"@.len() != "Get"@.len() && "POST"@.len() != "PUT"@.len());
            assert("POST"@.len() != "put"@.len() && "POST"@.len() != "Put"@.len());
        },
        Method::Delete => {
            assert("DELETE"@.len() != "GET"@.len() && "DELETE"@.len() != "get"@.len());
            assert("DELETE"@.len() != "Get"@.len() && "DELETE"@.len() != "PUT"@.len());
            assert("DELETE"@.len() != "put"@.len() && "DELETE"@.len() != "Put"@.len());
            assert("DELETE"@.len() != "POST"@.len() && "DELETE"@.len() != "post"@.len());
            assert("DELETE"@.len() != "Post"@.len());
        },
    }
}

/// A method name is read only from one of the three spellings of that
/// method's HTTP name (upper case, lower case, capitalized); each of them is
/// read, and every other text is refused.
pub proof fn law_method_spellings(s: Seq<char>, m: Method)
    ensures
        method_of_name(s) == Some(m) <==> match m {
            Method::Get => s == "GET"@ || s == "get"@ || s == "Get"@,
            Method::Put => s == "PUT"@ || s == "put"@ || s == "Put"@,
            Method::Post => s == "POST"@ || s == "post"@ || s == "Post"@,
            Method::Delete => s == "DELETE"@ || s == "delete"@ || s == "Delete"@,
        },
        method_of_name(s) is None <==> !(s == "GET"@ || s == "get"@ || s == "Get"@ || s
            == "PUT"@ || s == "put"@ || s == "Put"@ || s == "POST"@ || s == "post"@ || s
            == "Post"@ || s == "DELETE"@ || s == "delete"@ || s == "Delete"@),
{
    reveal_strlit("GET");
    reveal_strlit("get");
    reveal_strlit("Get");
    reveal_strlit("PUT");
    reveal_strlit("put");
    reveal_strlit("Put");
    reveal_strlit("POST");
    reveal_strlit("post");
    reveal_strlit("Post");
    reveal_strlit("DELETE");
    reveal_strlit("delete");
    reveal_strlit("Delete");
    assert("PUT"@[0] != "GET"@[0] && "PUT"@[0] != "get"@[0] && "PUT"@[0] != "Get"@[0]);
    assert("put"@[0] != "GET"@[0] && "put"@[0] != "get"@[0] && "put"@[0] != "Get"@[0]);
    assert("Put"@[0] != "GET"@[0] && "Put"@[0] != "get"@[0] && "Put"@[0] != "Get"@[0]);
    assert("GET"@.len() == 3 && "get"@.len() == 3 && "Get"@.len() == 3);
    assert("PUT"@.len() == 3 && "put"@.len() == 3 && "Put"@.len() == 3);
    assert("POST"@.len() == 4 && "post"@.len() == 4 && "Post"@.len() == 4);
    assert("DELETE"@.len() == 6 && "delete"@.len() == 6 && "Delete"@.len() == 6);
}

/// An integer range can be sampled exactly when its lower bound is below
/// its upper bound, whatever their signs; a union exactly when every member
/// can; every other generator always.
pub proof fn law_valid_generators(g: ArgGenerator)
    ensures
        g matches ArgGenerator::IntRange { low, high } ==> (g.valid() <==> low < high),
        g matches ArgGenerator::Union { generators } ==> (g.valid() <==> forall|i: int|
            0 <= i < generators@.len() ==> (#[trigger] generators@[i]).valid()),
        !(g is IntRange) && !(g is Union) ==> g.valid(),
{
}

/// An integer range draws the decimal text of a number exactly when the
/// number lies in the range, its lower bound included and its upper bound
/// excluded, whatever their signs.
pub proof fn law_int_range_texts(low: i64, high: i64, k: i64)
    ensures
        (ArgGenerator::IntRange { low, high }).can_sample(decimal(k as int)) <==> low <= k < high,
{
    if (ArgGenerator::IntRange { low, high }).can_sample(decimal(k as int)) {
        let n = choose|n: i64| low <= n < high && decimal(k as int) == #[trigger] decimal(n as int);
        law_decimal_injective(k as int, n as int);
    }
    if low <= k < high {
        assert(low <= k < high && decimal(k as int) == decimal(k as int));
    }
}

/// Appending a query draw adds exactly one parameter at the end of the
/// query string: `?` (for the first) or `&`, the draw's name, then `=` and
/// the value unless the value is empty. Earlier text is kept. A path draw
/// leaves the query string as it was.
pub proof fn law_query_parameter_appended(draws: Seq<ArgSample>, d: ArgSample)
    ensures
        ({
            let q = query_part(draws);
            let q2 = query_part(draws.push(d));
            match d {
                ArgSample::Path { .. } => q2 == q,
                ArgSample::Query { name, value } => {
                    &&& q2.len() == q.len() + 1 + name@.len() + if value@.len() == 0 {
                        0
                    } else {
                        1 + value@.len()
                    }
                    &&& q2.take(q.len() as int) == q
                    &&& q2[q.len() as int] == if q.len() == 0 {
                        '?'
                    } else {
                        '&'
                    }
                    &&& q2.subrange(q.len() + 1int, q.len() + 1int + name@.len()) == name@
                    &&& value@.len() > 0 ==> q2[q.len() + 1int + name@.len()] == '='
                        && q2.subrange(q.len() + 2int + name@.len(), q2.len() as int) == value@
                }
            }
        }),
{
    let q = query_part(draws);
    let q2 = query_part(draws.push(d));
    assert(draws.push(d).drop_last() == draws);
    assert(draws.push(d).last() == d);
    match d {
        ArgSample::Path { .. } => {},
        ArgSample::Query { name, value } => {
            let sep = if q.len() == 0 {
                '?'
            } else {
                '&'
            };
            let assignment = if value@.len() == 0 {
                Seq::<char>::empty()
            } else {
                seq!['='] + value@
            };
            assert(q2 == q + seq![sep] + name@ + assignment);
            assert(q2.take(q.len() as int) =~= q);
            assert(q2.subrange(q.len() + 1int, q.len() + 1int + name@.len()) =~= name@);
            if value@.len() > 0 {
                assert(q2.subrange(q.len() + 2int + name@.len(), q2.len() as int) =~= value@);
            }
        },
    }
}

/// The number of query parameters in a request's query string: every
/// query draw contributes one, each starting with `?` or `&` and its name.
pub open spec fn query_count(draws: Seq<ArgSample>) -> nat
    decreases draws.len(),
{
    if draws.len() == 0 {
        0
    } else {
        query_count(draws.drop_last()) + if draws.last() is Query {
            1nat
        } else {
            0nat
        }
    }
}

/// The query string holds at least one separator and the name of every
/// query draw: it is at least as long as the names of all query draws, each
/// with its separator.
pub open spec fn query_names_len(draws: Seq<ArgSample>) -> nat
    decreases draws.len(),
{
    if draws.len() == 0 {
        0
    } else {
        query_names_len(draws.drop_last()) + match draws.last() {
            ArgSample::Query { name, .. } => 1 + name@.len(),
            ArgSample::Path { .. } => 0nat,
        }
    }
}

/// No query draw is lost: the query string is at least as long as the names
/// of all query draws with one separator each, and it is empty exactly when
/// there is no query draw.
pub proof fn law_every_query_draw_counts(draws: Seq<ArgSample>)
    ensures
        query_part(draws).len() >= query_names_len(draws),
        query_part(draws).len() == 0 <==> query_count(draws) == 0,
    decreases draws.len(),
{
    if draws.len() > 0 {
        let init = draws.drop_last();
        law_every_query_draw_counts(init);
        law_query_parameter_appended(init, draws.last());
        assert(init.push(draws.last()) == draws);
    }
}

/// Every request URI begins with the base URL, followed by the endpoint.
pub proof fn law_uri_starts_with_target(
    base: Seq<char>,
    endpoint: Seq<char>,
    draws: Seq<ArgSample>,
)
    ensures
        built_uri(base, endpoint, draws).take(base.len() as int) == base,
        uri_prefix(base, endpoint).take(base.len() as int) == base,
        uri_prefix(base, endpoint).len() >= base.len() + endpoint.len(),
        built_uri(base, endpoint, draws).take(uri_prefix(base, endpoint).len() as int)
            == uri_prefix(base, endpoint),
{
    let pre = uri_prefix(base, endpoint);
    let u = built_uri(base, endpoint, draws);
    assert(u == pre + (path_part(draws) + query_part(draws)));
    assert(u.take(pre.len() as int) =~= pre);
    assert(pre.take(base.len() as int) =~= base);
    assert(u.take(base.len() as int) =~= base);
}

/// The query string is empty exactly when no query parameter was drawn,
/// and otherwise it starts with `?`.
pub proof fn law_query_string_shape(draws: Seq<ArgSample>)
    ensures
        query_part(draws).len() > 0 <==> exists|i: int|
            0 <= i < draws.len() && #[trigger] draws[i] is Query,
        query_part(draws).len() > 0 ==> query_part(draws)[0] == '?',
    decreases draws.len(),
{
    if draws.len() > 0 {
        let init = draws.drop_last();
        law_query_string_shape(init);
        if exists|i: int| 0 <= i < init.len() && #[trigger] init[i] is Query {
            let i = choose|i: int| 0 <= i < init.len() && #[trigger] init[i] is Query;
            assert(draws[i] == init[i]);
        }
        if exists|i: int| 0 <= i < draws.len() && #[trigger] draws[i] is Query {
            let i = choose|i: int| 0 <= i < draws.len() && #[trigger] draws[i] is Query;
            if i < draws.len() - 1 {
                assert(init[i] == draws[i]);
            }
        }
        if draws.last() is Query {
            assert(draws[draws.len() - 1] is Query);
        }
    }
}

/// Drawing one more argument extends the request URI at its end: a query
/// parameter adds `?` (when no query parameter was drawn before) or `&`, its
/// name, then `=` and its value unless the value is empty; a path component,
/// drawn while no query parameter was, adds `/` and its value.
pub proof fn law_uri_grows_by_draw(
    base: Seq<char>,
    endpoint: Seq<char>,
    draws: Seq<ArgSample>,
    d: ArgSample,
)
    ensures
        ({
            let u = built_uri(base, endpoint, draws);
            let u2 = built_uri(base, endpoint, draws.push(d));
            let first = forall|i: int| 0 <= i < draws.len() ==> !(#[trigger] draws[i] is Query);
            match d {
                ArgSample::Query { name, value } => u2 == u + seq![
                    if first {
                        '?'
                    } else {
                        '&'
                    },
                ] + name@ + if value@.len() == 0 {
                    Seq::<char>::empty()
                } else {
                    seq!['='] + value@
                },
                ArgSample::Path { value } => first ==> u2 == u + seq!['/'] + value@,
            }
        }),
{
    let e = draws.push(d);
    assert(e.drop_last() == draws);
    assert(e.last() == d);
    law_query_string_shape(draws);
    let pre = uri_prefix(base, endpoint);
    match d {
        ArgSample::Query { name, value } => {
            assert(path_part(e) == path_part(draws));
            let sep = if query_part(draws).len() == 0 {
                '?'
            } else {
                '&'
            };
            let assignment = if value@.len() == 0 {
                Seq::<char>::empty()
            } else {
                seq!['='] + value@
            };
            assert(query_part(e) == query_part(draws) + seq![sep] + name@ + assignment);
            assert(built_uri(base, endpoint, e) =~= built_uri(base, endpoint, draws) + seq![sep]
                + name@ + assignment);
        },
        ArgSample::Path { value } => {
            assert(query_part(e) == query_part(draws));
            if forall|i: int| 0 <= i < draws.len() ==> !(#[trigger] draws[i] is Query) {
                assert(query_part(draws).len() == 0);
                assert(built_uri(base, endpoint, e) =~= built_uri(base, endpoint, draws)
                    + seq!['/'] + value@);
            }
        },
    }
}

/// The text of a draw that stands in the request's path: the value of a
/// path draw (the name of a query draw).
pub open spec fn draw_text(d: ArgSample) -> Seq<char> {
    match d {
        ArgSample::Path { value } => value@,
        ArgSample::Query { name, .. } => name@,
    }
}

/// The texts of the draws, in order.
pub open spec fn draw_texts(draws: Seq<ArgSample>) -> Seq<Seq<char>> {
    Seq::new(draws.len(), |j: int| draw_text(draws[j]))
}

/// Where every draw is a path draw, the path part is the drawn texts, each
/// after a `/`, and there is no query string.
pub proof fn lemma_path_draws(draws: Seq<ArgSample>)
    requires
        forall|j: int| 0 <= j < draws.len() ==> #[trigger] draws[j] is Path,
    ensures
        path_part(draws) == slash_prefixed(draw_texts(draws)),
        query_part(draws) == Seq::<char>::empty(),
    decreases draws.len(),
{
    if draws.len() > 0 {
        let init = draws.drop_last();
        assert forall|j: int| 0 <= j < init.len() implies #[trigger] init[j] is Path by {
            assert(init[j] == draws[j]);
        }
        lemma_path_draws(init);
        assert(draw_texts(draws).drop_last() =~= draw_texts(init));
        assert(draws[draws.len() - 1] is Path);
    }
}

/// Two draws of the same texts, argument by argument.
pub open spec fn same_texts(a: ArgSample, b: ArgSample) -> bool {
    match (a, b) {
        (ArgSample::Path { value: v1 }, ArgSample::Path { value: v2 }) => v1@ == v2@,
        (ArgSample::Query { name: n1, value: v1 }, ArgSample::Query { name: n2, value: v2 }) => {
            n1@ == n2@ && v1@ == v2@
        },
        _ => false,
    }
}

proof fn lemma_same_texts_same_parts(d1: Seq<ArgSample>, d2: Seq<ArgSample>)
    requires
        d1.len() == d2.len(),
        forall|i: int| 0 <= i < d1.len() ==> same_texts(#[trigger] d1[i], d2[i]),
    ensures
        path_part(d1) == path_part(d2),
        query_part(d1) == query_part(d2),
    decreases d1.len(),
{
    if d1.len() > 0 {
        assert forall|i: int| 0 <= i < d1.drop_last().len() implies same_texts(
            #[trigger] d1.drop_last()[i],
            d2.drop_last()[i],
        ) by {
            assert(same_texts(d1[i], d2[i]));
        }
        lemma_same_texts_same_parts(d1.drop_last(), d2.drop_last());
        assert(same_texts(d1[d1.len() - 1], d2[d2.len() - 1]));
    }
}

/// A target whose arguments are all fixed texts is always requested with
/// the same URI.
pub proof fn law_fixed_target_is_deterministic(
    target: TestTarget,
    base: Seq<char>,
    d1: Seq<ArgSample>,
    d2: Seq<ArgSample>,
)
    requires
        forall|i: int|
            0 <= i < target.args_view().len() ==> match #[trigger] target.args_view()[i] {
                TestArg::Path { generator } => generator is Fixed,
                TestArg::QueryString { name, value } => name is Fixed && value is Fixed,
            },
        target.draws_fit(d1),
        target.draws_fit(d2),
    ensures
        built_uri(base, target.endpoint_view(), d1) == built_uri(base, target.endpoint_view(), d2),
{
    assert forall|i: int| 0 <= i < d1.len() implies same_texts(#[trigger] d1[i], d2[i]) by {
        assert(sample_fits(target.args_view()[i], d1[i]));
        assert(sample_fits(target.args_view()[i], d2[i]));
    }
    lemma_same_texts_same_parts(d1, d2);
}

} // verus!
