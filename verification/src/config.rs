//! Runtime configuration from command-line arguments (no config file), and the API token.
//!
//! Account database paths and keys are not configuration: clients register them at
//! runtime.

use vstd::prelude::*;
use vstd::string::StringExecFns;

use crate::text::{decimal, opt_view, parse_unsigned, same, unsigned_value, views};

verus! {

/// Full server configuration. Every field has a built-in default.
#[derive(Debug)]
pub struct Config {
    /// Listen port.
    pub port: u16,
    /// Bind address.
    pub host: String,
    /// Log level: error | warn | info | debug.
    pub log: String,
    /// File-watch debounce (ms).
    pub watch_debounce_ms: u64,
    /// Slow fallback poll (ms); 0 = disabled.
    pub watch_fallback_ms: u64,
    /// Media export root; default `<data-dir>/api-media`.
    pub media_export_dir: Option<String>,
    /// Base URL for exported media links; default derived from host and port.
    pub base_url: Option<String>,
    /// Print the stored API token and exit.
    pub show_token: bool,
}

/// What a [`Config`] holds.
pub struct ConfigModel {
    pub port: int,
    pub host: Seq<char>,
    pub log: Seq<char>,
    pub watch_debounce_ms: int,
    pub watch_fallback_ms: int,
    pub media_export_dir: Option<Seq<char>>,
    pub base_url: Option<Seq<char>>,
    pub show_token: bool,
}

impl View for Config {
    type V = ConfigModel;

    open spec fn view(&self) -> ConfigModel {
        ConfigModel {
            port: self.port as int,
            host: self.host@,
            log: self.log@,
            watch_debounce_ms: self.watch_debounce_ms as int,
            watch_fallback_ms: self.watch_fallback_ms as int,
            media_export_dir: opt_view(self.media_export_dir),
            base_url: opt_view(self.base_url),
            show_token: self.show_token,
        }
    }
}

/// The configuration without arguments.
pub open spec fn default_config() -> ConfigModel {
    ConfigModel {
        port: 5032,
        host: "127.0.0.1"@,
        log: "info"@,
        watch_debounce_ms: 350,
        watch_fallback_ms: 30000,
        media_export_dir: None,
        base_url: None,
        show_token: false,
    }
}

impl Default for Config {
    fn default() -> (r: Self)
        ensures
            r@ == default_config(),
    {
        Config {
            port: 5032,
            host: "127.0.0.1".to_owned(),
            log: "info".to_owned(),
            watch_debounce_ms: 350,
            watch_fallback_ms: 30000,
            media_export_dir: None,
            base_url: None,
            show_token: false,
        }
    }
}

/// Why an argument was refused. Each holds the argument or value that it is about.
#[derive(Debug)]
pub enum ConfigError {
    MissingValue(String),
    InvalidPort(String),
    InvalidLog(String),
    InvalidDebounce(String),
    InvalidFallback(String),
    UnknownFlag(String),
}

/// What a [`ConfigError`] holds.
pub enum ConfigErrorModel {
    MissingValue(Seq<char>),
    InvalidPort(Seq<char>),
    InvalidLog(Seq<char>),
    InvalidDebounce(Seq<char>),
    InvalidFallback(Seq<char>),
    UnknownFlag(Seq<char>),
}

impl View for ConfigError {
    type V = ConfigErrorModel;

    open spec fn view(&self) -> ConfigErrorModel {
        match *self {
            ConfigError::MissingValue(s) => ConfigErrorModel::MissingValue(s@),
            ConfigError::InvalidPort(s) => ConfigErrorModel::InvalidPort(s@),
            ConfigError::InvalidLog(s) => ConfigErrorModel::InvalidLog(s@),
            ConfigError::InvalidDebounce(s) => ConfigErrorModel::InvalidDebounce(s@),
            ConfigError::InvalidFallback(s) => ConfigErrorModel::InvalidFallback(s@),
            ConfigError::UnknownFlag(s) => ConfigErrorModel::UnknownFlag(s@),
        }
    }
}

/// What `--help` prints.
pub const HELP: &'static str = "qqflow-server — 本地 QQ NT 聊天记录 HTTP API + SSE 服务\n\n用法: qqflow-server [选项]\n\n选项:\n--port <u16>              监听端口（默认 5032）\n--host <ip>               绑定地址（默认 127.0.0.1）\n--log <level>             日志级别: error|warn|info|debug（默认 info）\n--watch-debounce-ms <ms>  文件事件防抖（默认 350）\n--watch-fallback-ms <ms>  慢速兜底轮询，0 关闭（默认 30000）\n--media-export-dir <dir>  媒体导出根目录（默认 <data-dir>/api-media）\n--base-url <url>          媒体导出链接 base URL（默认 http://<host>:<port>，\n绑定 0.0.0.0/:: 时回退 127.0.0.1；局域网访问请显式指定）\n--show-token              打印已存的 API token 并退出\n-h, --help                显示本帮助\n\n账号与密钥不在命令行提供：启动后由客户端 POST /api/v1/accounts\n传入 {qq, key, db_path} 注册账号。";

/// What `--help` prints; it also follows the message of a malformed command line.
pub fn help() -> (r: String)
    ensures
        r@ == HELP@,
{
    HELP.to_owned()
}

/// `a` and then `b`.
fn concat(a: &str, b: &str) -> (r: String)
    ensures
        r@ == a@ + b@,
{
    let mut r = a.to_owned();
    r.append(b);
    r
}

impl ConfigError {
    /// What the error tells the operator.
    pub open spec fn text(&self) -> Seq<char> {
        match *self {
            ConfigError::MissingValue(s) => "参数 "@ + s@ + " 缺少值\n"@ + HELP@,
            ConfigError::InvalidPort(s) => "--port 需为 0-65535 的整数: "@ + s@,
            ConfigError::InvalidLog(s) => "--log 需为 error|warn|info|debug: "@ + s@,
            ConfigError::InvalidDebounce(s) => "--watch-debounce-ms 需为非负整数: "@ + s@,
            ConfigError::InvalidFallback(s) => "--watch-fallback-ms 需为非负整数: "@ + s@,
            ConfigError::UnknownFlag(s) => "未知参数: "@ + s@ + "\n"@ + HELP@,
        }
    }

    /// The message for the operator.
    pub fn message(&self) -> (r: String)
        ensures
            r@ == self.text(),
    {
        match self {
            ConfigError::MissingValue(s) => {
                let head = concat("参数 ", s.as_str());
                let line = concat(head.as_str(), " 缺少值\n");
                concat(line.as_str(), HELP)
            },
            ConfigError::InvalidPort(s) => concat("--port 需为 0-65535 的整数: ", s.as_str()),
            ConfigError::InvalidLog(s) => concat("--log 需为 error|warn|info|debug: ", s.as_str()),
            ConfigError::InvalidDebounce(s) => concat(
                "--watch-debounce-ms 需为非负整数: ",
                s.as_str(),
            ),
            ConfigError::InvalidFallback(s) => concat(
                "--watch-fallback-ms 需为非负整数: ",
                s.as_str(),
            ),
            ConfigError::UnknownFlag(s) => {
                let head = concat("未知参数: ", s.as_str());
                let line = concat(head.as_str(), "\n");
                concat(line.as_str(), HELP)
            },
        }
    }
}

/// One of the log levels.
pub open spec fn is_log_level(s: Seq<char>) -> bool {
    s == "error"@ || s == "warn"@ || s == "info"@ || s == "debug"@
}

/// The configuration after one flag with its value.
pub open spec fn with_flag(cfg: ConfigModel, flag: Seq<char>, value: Seq<char>) -> Result<
    ConfigModel,
    ConfigErrorModel,
> {
    let number = unsigned_value(value);
    if flag == "--port"@ {
        if number is Some && number->0 <= u16::MAX {
            Ok(ConfigModel { port: number->0 as int, ..cfg })
        } else {
            Err(ConfigErrorModel::InvalidPort(value))
        }
    } else if flag == "--host"@ {
        Ok(ConfigModel { host: value, ..cfg })
    } else if flag == "--log"@ {
        if is_log_level(value) {
            Ok(ConfigModel { log: value, ..cfg })
        } else {
            Err(ConfigErrorModel::InvalidLog(value))
        }
    } else if flag == "--watch-debounce-ms"@ {
        if number is Some && number->0 <= u64::MAX {
            Ok(ConfigModel { watch_debounce_ms: number->0 as int, ..cfg })
        } else {
            Err(ConfigErrorModel::InvalidDebounce(value))
        }
    } else if flag == "--watch-fallback-ms"@ {
        if number is Some && number->0 <= u64::MAX {
            Ok(ConfigModel { watch_fallback_ms: number->0 as int, ..cfg })
        } else {
            Err(ConfigErrorModel::InvalidFallback(value))
        }
    } else if flag == "--media-export-dir"@ {
        Ok(ConfigModel { media_export_dir: Some(value), ..cfg })
    } else if flag == "--base-url"@ {
        Ok(ConfigModel { base_url: Some(value), ..cfg })
    } else {
        Err(ConfigErrorModel::UnknownFlag(flag))
    }
}

/// What a list of arguments makes of a configuration. Asking for help ends the reading
/// with no configuration; the first refused argument ends it with its error.
pub open spec fn configured(cfg: ConfigModel, args: Seq<Seq<char>>) -> Result<
    Option<ConfigModel>,
    ConfigErrorModel,
>
    decreases args.len(),
{
    if args.len() == 0 {
        Ok(Some(cfg))
    } else if args[0] == "-h"@ || args[0] == "--help"@ {
        Ok(None)
    } else if args[0] == "--show-token"@ {
        configured(ConfigModel { show_token: true, ..cfg }, args.drop_first())
    } else if args.len() == 1 {
        Err(ConfigErrorModel::MissingValue(args[0]))
    } else {
        match with_flag(cfg, args[0], args[1]) {
            Ok(next) => configured(next, args.skip(2)),
            Err(e) => Err(e),
        }
    }
}

/// Applies one flag with its value.
fn apply_flag(cfg: &mut Config, flag: &String, value: &String) -> (r: Result<(), ConfigError>)
    ensures
        match with_flag(old(cfg)@, flag@, value@) {
            Ok(next) => r is Ok && final(cfg)@ == next,
            Err(e) => r is Err && r->Err_0@ == e,
        },
{
    let f = flag.as_str();
    let v = value.as_str();
    if same(f, "--port") {
        match parse_unsigned(v, 65535) {
            Some(n) => cfg.port = n as u16,
            None => return Err(ConfigError::InvalidPort(value.clone())),
        }
    } else if same(f, "--host") {
        cfg.host = value.clone();
    } else if same(f, "--log") {
        if !(same(v, "error") || same(v, "warn") || same(v, "info") || same(v, "debug")) {
            return Err(ConfigError::InvalidLog(value.clone()));
        }
        cfg.log = value.clone();
    } else if same(f, "--watch-debounce-ms") {
        match parse_unsigned(v, u64::MAX) {
            Some(n) => cfg.watch_debounce_ms = n,
            None => return Err(ConfigError::InvalidDebounce(value.clone())),
        }
    } else if same(f, "--watch-fallback-ms") {
        match parse_unsigned(v, u64::MAX) {
            Some(n) => cfg.watch_fallback_ms = n,
            None => return Err(ConfigError::InvalidFallback(value.clone())),
        }
    } else if same(f, "--media-export-dir") {
        cfg.media_export_dir = Some(value.clone());
    } else if same(f, "--base-url") {
        cfg.base_url = Some(value.clone());
    } else {
        return Err(ConfigError::UnknownFlag(flag.clone()));
    }
    Ok(())
}

/// Parse `--flag value` pairs. `Ok(None)` when `-h`/`--help` was given: the caller prints
/// the help and exits.
pub fn parse_args(args: Vec<String>) -> (r: Result<Option<Config>, ConfigError>)
    ensures
        match configured(default_config(), views(args@)) {
            Ok(Some(c)) => r is Ok && r->Ok_0 is Some && r->Ok_0->0@ == c,
            Ok(None) => r is Ok && r->Ok_0 is None,
            Err(e) => r is Err && r->Err_0@ == e,
        },
{
    let ghost all = views(args@);
    let mut cfg = Config::default();
    let mut i: usize = 0;
    assert(all.skip(0) =~= all);
    while i < args.len()
        invariant
            i <= args.len(),
            all == views(args@),
            configured(default_config(), all) == configured(cfg@, all.skip(i as int)),
        decreases args.len() - i,
    {
        let ghost rest = all.skip(i as int);
        let flag = args[i].as_str();
        assert(rest[0] == flag@);
        if same(flag, "-h") || same(flag, "--help") {
            return Ok(None);
        }
        if same(flag, "--show-token") {
            cfg.show_token = true;
            i += 1;
            assert(rest.drop_first() =~= all.skip(i as int));
            continue;
        }
        if args.len() - i < 2 {
            return Err(ConfigError::MissingValue(args[i].clone()));
        }
        assert(rest[1] == args@[i + 1]@);
        match apply_flag(&mut cfg, &args[i], &args[i + 1]) {
            Ok(()) => {},
            Err(e) => return Err(e),
        }
        i += 2;
        assert(rest.skip(2) =~= all.skip(i as int));
    }
    Ok(Some(cfg))
}

/// The hexadecimal digit of a number below sixteen.
pub open spec fn hex_digit(n: int) -> char {
    if n < 10 {
        ((n + 48) as u8) as char
    } else {
        ((n + 87) as u8) as char
    }
}

/// Bytes in lowercase hexadecimal, two digits each.
pub open spec fn hex_of(bytes: Seq<u8>) -> Seq<char>
    decreases bytes.len(),
{
    if bytes.len() == 0 {
        Seq::empty()
    } else {
        hex_of(bytes.drop_last()).push(hex_digit(bytes.last() as int / 16)).push(
            hex_digit(bytes.last() as int % 16),
        )
    }
}

fn hex_char(n: u8) -> (r: char)
    requires
        n < 16,
    ensures
        r == hex_digit(n as int),
{
    if n < 10 {
        (n + 48) as char
    } else {
        (n + 87) as char
    }
}

/// Bytes in lowercase hexadecimal.
pub fn hex_encode(bytes: &[u8]) -> (r: String)
    ensures
        r@ == hex_of(bytes@),
{
    let mut r = String::new();
    let mut i: usize = 0;
    assert(bytes@.take(0) =~= Seq::<u8>::empty());
    while i < bytes.len()
        invariant
            i <= bytes.len(),
            r@ == hex_of(bytes@.take(i as int)),
        decreases bytes.len() - i,
    {
        let b: u8 = bytes[i];
        r.push(hex_char(b / 16));
        r.push(hex_char(b % 16));
        i += 1;
        assert(bytes@.take(i as int).drop_last() =~= bytes@.take(i - 1));
    }
    assert(bytes@.take(bytes@.len() as int) =~= bytes@);
    r
}

/// `rand::thread_rng` and `RngCore::fill_bytes`: thirty-two bytes that nothing is promised
/// of.
#[verifier::external_body]
fn random_bytes() -> [u8; 32] {
    let mut bytes = [0u8; 32];
    rand::RngCore::fill_bytes(&mut rand::thread_rng(), &mut bytes);
    bytes
}

/// A fresh API token: thirty-two random bytes in hexadecimal.
pub fn new_token() -> (r: String)
    ensures
        exists|bytes: Seq<u8>| bytes.len() == 32 && r@ == #[trigger] hex_of(bytes),
        r@.len() == 64,
{
    let bytes = random_bytes();
    let r = hex_encode(&bytes);
    proof {
        law_hex_length(bytes@);
    }
    r
}

/// Hexadecimal takes two digits a byte.
pub proof fn law_hex_length(bytes: Seq<u8>)
    ensures
        hex_of(bytes).len() == 2 * bytes.len(),
    decreases bytes.len(),
{
    if bytes.len() > 0 {
        law_hex_length(bytes.drop_last());
    }
}

/// What the credential store answered when asked for the token.
#[derive(Debug)]
pub enum StoredToken {
    Found(String),
    Missing,
    Unavailable,
}

/// What to do for an API token.
#[derive(Debug)]
pub enum TokenPlan {
    /// Use this token.
    Use(String),
    /// Generate one and store it.
    CreateAndStore,
    /// Generate one for this session only.
    CreateForSession,
}

/// The token to start with: the stored one, where it is not empty; else a fresh one, to
/// be stored where there is a store.
pub fn token_plan(stored: StoredToken) -> (r: TokenPlan)
    ensures
        match stored {
            StoredToken::Found(t) => if t@.len() > 0 {
                r == TokenPlan::Use(t)
            } else {
                r is CreateAndStore
            },
            StoredToken::Missing => r is CreateAndStore,
            StoredToken::Unavailable => r is CreateForSession,
        },
{
    match stored {
        StoredToken::Found(t) => if t.as_str().is_empty() {
            TokenPlan::CreateAndStore
        } else {
            TokenPlan::Use(t)
        },
        StoredToken::Missing => TokenPlan::CreateAndStore,
        StoredToken::Unavailable => TokenPlan::CreateForSession,
    }
}

/// The stored token to show, where there is one; an error where the store cannot be
/// read. None is generated.
pub fn shown_token(stored: StoredToken) -> (r: Result<Option<String>, ()>)
    ensures
        match stored {
            StoredToken::Found(t) => r == Ok::<Option<String>, ()>(
                if t@.len() > 0 {
                    Some(t)
                } else {
                    None
                },
            ),
            StoredToken::Missing => r == Ok::<Option<String>, ()>(None),
            StoredToken::Unavailable => r is Err,
        },
{
    match stored {
        StoredToken::Found(t) => if t.as_str().is_empty() {
            Ok(None)
        } else {
            Ok(Some(t))
        },
        StoredToken::Missing => Ok(None),
        StoredToken::Unavailable => Err(()),
    }
}

/// String equality in a time that depends on the lengths alone.
pub fn constant_time_eq(a: &str, b: &str) -> (r: bool)
    ensures
        r == (a@ == b@),
{
    let x = a.as_bytes();
    let y = b.as_bytes();
    proof {
        vstd::utf8::encode_utf8_decode_utf8(a@);
        vstd::utf8::encode_utf8_decode_utf8(b@);
    }
    if x.len() != y.len() {
        return false;
    }
    let mut acc: u8 = 0;
    let mut i: usize = 0;
    while i < x.len()
        invariant
            i <= x.len(),
            x.len() == y.len(),
            acc == 0 <==> forall|j: int| 0 <= j < i ==> x@[j] == y@[j],
        decreases x.len() - i,
    {
        let p: u8 = x[i];
        let q: u8 = y[i];
        assert((acc | (p ^ q)) == 0 <==> acc == 0 && p == q) by (bit_vector);
        acc = acc | (p ^ q);
        i += 1;
    }
    if acc == 0 {
        assert(x@ =~= y@);
    }
    acc == 0
}

/// Without arguments the service listens on the loopback address at port 5032, logs at
/// `info`, waits 350 milliseconds for changes to settle, looks again every thirty seconds,
/// and neither exports elsewhere nor shows its token.
pub proof fn law_defaults()
    ensures
        configured(default_config(), Seq::empty()) == Ok::<Option<ConfigModel>, ConfigErrorModel>(
            Some(default_config()),
        ),
        default_config().port == 5032,
        default_config().host == "127.0.0.1"@,
        default_config().log == "info"@,
        default_config().watch_debounce_ms == 350,
        default_config().watch_fallback_ms == 30_000,
        default_config().media_export_dir is None,
        default_config().base_url is None,
        !default_config().show_token,
{
}

proof fn lemma_flags_differ()
    ensures
        "--port"@.len() == 6 && "--port"@[2] == 'p',
        "--host"@.len() == 6 && "--host"@[2] == 'h',
        "--log"@.len() == 5,
        "--watch-debounce-ms"@.len() == 19 && "--watch-debounce-ms"@[8] == 'd',
        "--watch-fallback-ms"@.len() == 19 && "--watch-fallback-ms"@[8] == 'f',
        "--media-export-dir"@.len() == 18,
        "--base-url"@.len() == 10,
        "-h"@.len() == 2,
        "--help"@.len() == 6 && "--help"@[2] == 'h' && "--help"@[3] == 'e',
        "--host"@[3] == 'o',
        "--show-token"@.len() == 12,
{
    reveal_strlit("--port");
    reveal_strlit("--host");
    reveal_strlit("--log");
    reveal_strlit("--watch-debounce-ms");
    reveal_strlit("--watch-fallback-ms");
    reveal_strlit("--media-export-dir");
    reveal_strlit("--base-url");
    reveal_strlit("-h");
    reveal_strlit("--help");
    reveal_strlit("--show-token");
}

/// Each flag sets its own field and no other.
pub proof fn law_flags_set_their_fields(cfg: ConfigModel, value: Seq<char>)
    ensures
        with_flag(cfg, "--host"@, value) == Ok::<ConfigModel, ConfigErrorModel>(
            ConfigModel { host: value, ..cfg },
        ),
        with_flag(cfg, "--media-export-dir"@, value) == Ok::<ConfigModel, ConfigErrorModel>(
            ConfigModel { media_export_dir: Some(value), ..cfg },
        ),
        with_flag(cfg, "--base-url"@, value) == Ok::<ConfigModel, ConfigErrorModel>(
            ConfigModel { base_url: Some(value), ..cfg },
        ),
        value == "error"@ || value == "warn"@ || value == "info"@ || value == "debug"@ ==> with_flag(
            cfg,
            "--log"@,
            value,
        ) == Ok::<ConfigModel, ConfigErrorModel>(ConfigModel { log: value, ..cfg }),
        value != "error"@ && value != "warn"@ && value != "info"@ && value != "debug"@ ==> with_flag(
            cfg,
            "--log"@,
            value,
        ) == Err::<ConfigModel, ConfigErrorModel>(ConfigErrorModel::InvalidLog(value)),
{
    lemma_flags_differ();
}

/// The numbers that flags take: a port up to 65535, and times in milliseconds; a text that
/// is no such number is refused by its own error.
pub proof fn law_numeric_flags(cfg: ConfigModel, n: u64, value: Seq<char>)
    requires
        unsigned_value(value) is None,
    ensures
        n <= 65535 ==> with_flag(cfg, "--port"@, decimal(n as int)) == Ok::<
            ConfigModel,
            ConfigErrorModel,
        >(ConfigModel { port: n as int, ..cfg }),
        n > 65535 ==> with_flag(cfg, "--port"@, decimal(n as int)) == Err::<
            ConfigModel,
            ConfigErrorModel,
        >(ConfigErrorModel::InvalidPort(decimal(n as int))),
        with_flag(cfg, "--watch-debounce-ms"@, decimal(n as int)) == Ok::<
            ConfigModel,
            ConfigErrorModel,
        >(ConfigModel { watch_debounce_ms: n as int, ..cfg }),
        with_flag(cfg, "--watch-fallback-ms"@, decimal(n as int)) == Ok::<
            ConfigModel,
            ConfigErrorModel,
        >(ConfigModel { watch_fallback_ms: n as int, ..cfg }),
        with_flag(cfg, "--port"@, value) == Err::<ConfigModel, ConfigErrorModel>(
            ConfigErrorModel::InvalidPort(value),
        ),
        with_flag(cfg, "--watch-debounce-ms"@, value) == Err::<ConfigModel, ConfigErrorModel>(
            ConfigErrorModel::InvalidDebounce(value),
        ),
        with_flag(cfg, "--watch-fallback-ms"@, value) == Err::<ConfigModel, ConfigErrorModel>(
            ConfigErrorModel::InvalidFallback(value),
        ),
{
    lemma_flags_differ();
    crate::text::lemma_decimal_nat_value(n as nat);
    crate::text::law_decimal_value(n as int);
}

/// Any other flag is refused by name.
pub proof fn law_unknown_flags(cfg: ConfigModel, flag: Seq<char>, value: Seq<char>)
    requires
        flag != "--port"@,
        flag != "--host"@,
        flag != "--log"@,
        flag != "--watch-debounce-ms"@,
        flag != "--watch-fallback-ms"@,
        flag != "--media-export-dir"@,
        flag != "--base-url"@,
    ensures
        with_flag(cfg, flag, value) == Err::<ConfigModel, ConfigErrorModel>(
            ConfigErrorModel::UnknownFlag(flag),
        ),
{
}

/// Arguments are read from left to right: a flag takes the argument behind it, the token
/// switch takes none, a call for help ends the reading, and the first error stands.
pub proof fn law_arguments_are_read_in_order(
    cfg: ConfigModel,
    flag: Seq<char>,
    value: Seq<char>,
    rest: Seq<Seq<char>>,
)
    requires
        flag != "-h"@,
        flag != "--help"@,
        flag != "--show-token"@,
    ensures
        configured(cfg, seq!["-h"@] + rest) == Ok::<Option<ConfigModel>, ConfigErrorModel>(None),
        configured(cfg, seq!["--help"@] + rest) == Ok::<Option<ConfigModel>, ConfigErrorModel>(None),
        configured(cfg, seq!["--show-token"@] + rest) == configured(
            ConfigModel { show_token: true, ..cfg },
            rest,
        ),
        configured(cfg, seq![flag]) == Err::<Option<ConfigModel>, ConfigErrorModel>(
            ConfigErrorModel::MissingValue(flag),
        ),
        with_flag(cfg, flag, value) is Ok ==> configured(cfg, seq![flag, value] + rest)
            == configured(with_flag(cfg, flag, value)->Ok_0, rest),
        with_flag(cfg, flag, value) is Err ==> configured(cfg, seq![flag, value] + rest) == Err::<
            Option<ConfigModel>,
            ConfigErrorModel,
        >(with_flag(cfg, flag, value)->Err_0),
{
    lemma_flags_differ();
    let a = seq!["-h"@] + rest;
    let b = seq!["--help"@] + rest;
    let c = seq!["--show-token"@] + rest;
    let d = seq![flag, value] + rest;
    assert(a[0] == "-h"@ && b[0] == "--help"@ && c[0] == "--show-token"@);
    assert(c.drop_first() =~= rest);
    assert(d[0] == flag && d[1] == value);
    assert(d.skip(2) =~= rest);
    assert(seq![flag][0] == flag);
}

/// The value of a hexadecimal digit in small letters.
pub open spec fn nibble(c: char) -> int {
    if '0' <= c <= '9' {
        c as int - '0' as int
    } else {
        c as int - 'a' as int + 10
    }
}

/// Each byte is written as two digits in small letters, the greater half first, and the two
/// read back as the byte.
pub proof fn law_hex_reads_back(bytes: Seq<u8>, i: int)
    requires
        0 <= i < bytes.len(),
    ensures
        ({
            let h = hex_of(bytes);
            let a = h[2 * i];
            let b = h[2 * i + 1];
            &&& h.len() == 2 * bytes.len()
            &&& '0' <= a <= '9' || 'a' <= a <= 'f'
            &&& '0' <= b <= '9' || 'a' <= b <= 'f'
            &&& nibble(a) * 16 + nibble(b) == bytes[i]
        }),
    decreases bytes.len(),
{
    law_hex_length(bytes);
    law_hex_length(bytes.drop_last());
    if i < bytes.len() - 1 {
        law_hex_reads_back(bytes.drop_last(), i);
    } else {
        lemma_nibble(bytes[i] as int / 16);
        lemma_nibble(bytes[i] as int % 16);
    }
}

proof fn lemma_nibble(n: int)
    requires
        0 <= n < 16,
    ensures
        nibble(hex_digit(n)) == n,
        '0' <= hex_digit(n) <= '9' || 'a' <= hex_digit(n) <= 'f',
{
}

/// Different bytes have different texts.
pub proof fn law_hex_is_injective(a: Seq<u8>, b: Seq<u8>)
    requires
        hex_of(a) == hex_of(b),
    ensures
        a == b,
{
    law_hex_length(a);
    law_hex_length(b);
    assert forall|i: int| 0 <= i < a.len() implies a[i] == b[i] by {
        law_hex_reads_back(a, i);
        law_hex_reads_back(b, i);
    }
    assert(a =~= b);
}

/// A configuration is seen as what its fields hold, each under its own name.
pub proof fn law_config_view(v: Config)
    ensures
        v@.port == v.port,
        v@.host == v.host@,
        v@.log == v.log@,
        v@.watch_debounce_ms == v.watch_debounce_ms,
        v@.watch_fallback_ms == v.watch_fallback_ms,
        v.media_export_dir is Some ==> v@.media_export_dir == Some(v.media_export_dir->0@),
        v.media_export_dir is None ==> v@.media_export_dir is None,
        v.base_url is Some ==> v@.base_url == Some(v.base_url->0@),
        v.base_url is None ==> v@.base_url is None,
        v@.show_token == v.show_token,
{
}

/// What is said of each refused argument: the argument itself is told, and the help is shown
/// where a flag is unknown or lacks its value.
pub proof fn law_error_texts(s: String)
    ensures
        ConfigError::MissingValue(s).text() == "参数 "@ + s@ + " 缺少值\n"@ + HELP@,
        ConfigError::UnknownFlag(s).text() == "未知参数: "@ + s@ + "\n"@ + HELP@,
        ConfigError::InvalidPort(s).text() == "--port 需为 0-65535 的整数: "@ + s@,
        ConfigError::InvalidLog(s).text() == "--log 需为 error|warn|info|debug: "@ + s@,
        ConfigError::InvalidDebounce(s).text() == "--watch-debounce-ms 需为非负整数: "@ + s@,
        ConfigError::InvalidFallback(s).text() == "--watch-fallback-ms 需为非负整数: "@ + s@,
{
}

} // verus!
