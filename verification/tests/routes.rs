use heel_gun::config::{Config, ConfigError, ConfigFormat};
use heel_gun::target::{ArgGenerator, ArgSample, Method, TestArg};

#[test]
fn route_uri_without_parameters() {
    let (endpoint, args) = Config::parse_route_uri("/assets/app.js").unwrap();
    assert_eq!(endpoint, "assets/app.js");
    assert!(args.is_empty());
    let (endpoint, args) = Config::parse_route_uri("//a//b/").unwrap();
    assert_eq!(endpoint, "a//b/");
    assert!(args.is_empty());
    let (endpoint, _) = Config::parse_route_uri("/").unwrap();
    assert_eq!(endpoint, "");
    let (endpoint, _) = Config::parse_route_uri("").unwrap();
    assert_eq!(endpoint, "");
}

#[test]
fn route_uri_with_parameters() {
    let (endpoint, args) = Config::parse_route_uri("/user/:id/profile/:section").unwrap();
    assert_eq!(endpoint, "user");
    assert_eq!(
        args,
        vec![
            TestArg::Path { generator: ArgGenerator::Magic },
            TestArg::Path { generator: ArgGenerator::Fixed { value: "profile".to_string() } },
            TestArg::Path { generator: ArgGenerator::Magic },
        ]
    );
    let (endpoint, args) = Config::parse_route_uri(":id").unwrap();
    assert_eq!(endpoint, "");
    assert_eq!(args, vec![TestArg::Path { generator: ArgGenerator::Magic }]);
}

#[test]
fn route_uri_with_wildcard_is_refused() {
    let e = Config::parse_route_uri("/assets/*file").unwrap_err();
    assert_eq!(e, ConfigError::WildcardRoute { uri: "/assets/*file".to_string() });
    assert_eq!(
        e.message(),
        "could not read URI '/assets/*file': routes with wildcard '*' are currently not supported"
    );
}

const ROUTES: &str = "# Routes\n\
GET     /                       controllers.Application.index\n\
\n\
  POST  /user/:name   controllers.Users.create(name) # create a user\n\
*       /ping         controllers.Ping.ping\n\
GET     /assets/*file controllers.Assets.at(file)\n\
PATCH   /patched      controllers.X.y\n\
get     /lower        controllers.X.z\n\
DELETE\n\
#GET    /commented    controllers.X.w\n\
PUT /last";

#[test]
fn routes_file_gives_targets_and_errors() {
    let (config, errors) = Config::from_routes(ROUTES);
    let got: Vec<(Method, String, usize)> = config
        .targets
        .iter()
        .map(|t| (t.method(), t.endpoint().to_string(), t.args().len()))
        .collect();
    assert_eq!(
        got,
        vec![
            (Method::Get, "".to_string(), 0),
            (Method::Post, "user".to_string(), 1),
            (Method::Get, "ping".to_string(), 0),
            (Method::Post, "ping".to_string(), 0),
            (Method::Put, "ping".to_string(), 0),
            (Method::Delete, "ping".to_string(), 0),
            (Method::Put, "last".to_string(), 0),
        ]
    );
    assert_eq!(config.targets[1].args()[0], TestArg::Path { generator: ArgGenerator::Magic });
    assert_eq!(errors, vec![ConfigError::WildcardRoute { uri: "/assets/*file".to_string() }]);
}

#[test]
fn empty_routes_file() {
    let (config, errors) = Config::from_routes("");
    assert!(config.targets.is_empty());
    assert!(errors.is_empty());
    let (config, _) = Config::from_routes("\n\n   # nothing\n\t\n");
    assert!(config.targets.is_empty());
}

#[test]
fn crlf_line_endings() {
    let (config, errors) = Config::from_routes("GET /a\r\nPOST /b/:c\r\n");
    assert!(errors.is_empty());
    assert_eq!(config.targets.len(), 2);
    assert_eq!(config.targets[0].endpoint(), "a");
    assert_eq!(config.targets[1].endpoint(), "b");
}

#[test]
fn file_formats() {
    assert_eq!(Config::format_of(Some("routes"), None), Ok(ConfigFormat::Routes));
    assert_eq!(Config::format_of(Some("routes"), Some("json")), Ok(ConfigFormat::Routes));
    assert_eq!(Config::format_of(Some("a.json"), Some("json")), Ok(ConfigFormat::Json));
    assert_eq!(Config::format_of(Some("a.yml"), Some("yml")), Ok(ConfigFormat::Yaml));
    assert_eq!(Config::format_of(Some("a.yaml"), Some("yaml")), Ok(ConfigFormat::Yaml));
    assert_eq!(Config::format_of(Some("a.toml"), Some("toml")), Err(ConfigError::UnsupportedFile));
    assert_eq!(Config::format_of(Some("a"), None), Err(ConfigError::UnsupportedFile));
    assert_eq!(Config::format_of(None, Some("JSON")), Err(ConfigError::UnsupportedFile));
    assert_eq!(
        ConfigError::UnsupportedFile.message(),
        "Unsupported configuration file: must be .json .yml)"
    );
}

#[test]
fn every_route_is_a_target_or_an_error() {
    let text = "* /a\nGET /b/*c\nPOST /d/:e\n* /f*\n";
    let (config, errors) = Config::from_routes(text);
    assert_eq!(config.targets.len() + errors.len(), 4 + 1 + 1 + 4);
    assert_eq!(config.targets.len(), 5);
    assert_eq!(errors.len(), 5);
}

#[test]
fn route_target_uri_replaces_parameters() {
    let uri = "/user/:id/profile/:section";
    let (endpoint, args) = Config::parse_route_uri(uri).unwrap();
    let t = heel_gun::target::TestTarget::new(endpoint, Method::Get, args);
    let draws = vec![
        ArgSample::Path { value: "42".to_string() },
        ArgSample::Path { value: "profile".to_string() },
        ArgSample::Path { value: "null".to_string() },
    ];
    assert_eq!(t.build_uri("http://h", &draws), "http://h/user/42/profile/null");
    let (endpoint, args) = Config::parse_route_uri("/").unwrap();
    let t = heel_gun::target::TestTarget::new(endpoint, Method::Get, args);
    assert_eq!(t.build_uri("http://h", &[]), "http://h/");
}
