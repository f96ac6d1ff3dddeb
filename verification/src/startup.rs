//! What the node is started with: the command line, paths, and keys.

use vstd::prelude::*;

use crate::config::{law_stages_have_their_names, stage_of_name, SemanticRebuildStage};
use crate::package::CryptoSuite;
use crate::text::{
    after_prefix, chars_of, ends_with, law_text_starts_and_ends_with_its_parts, optional_text,
    same_text, starts_with, text_after_prefix, text_between, text_ends_with, text_starts_with,
    texts, trim_trailing_char, without_trailing,
};

verus! {

/// What the command line of a semantic command says.
pub struct SemanticCliArgs {
    pub config_path: Seq<char>,
    pub stage: SemanticRebuildStage,
    pub reset: bool,
}

/// What the arguments from `index` on make of what the earlier ones said. A
/// name that starts with two hyphens is an option, and unknown options are
/// passed over; any other argument is the path of the configuration.
pub open spec fn cli_args_from(
    args: Seq<Seq<char>>,
    index: int,
    said: SemanticCliArgs,
) -> Result<SemanticCliArgs, Seq<char>>
    decreases args.len() - index,
{
    if index < 0 || index >= args.len() {
        Ok(said)
    } else if args[index] == "--reset"@ {
        cli_args_from(args, index + 1, (SemanticCliArgs { reset: true, ..said }))
    } else if args[index] == "--stage"@ {
        if index + 1 >= args.len() {
            Err("missing_semantic_rebuild_stage"@)
        } else {
            match stage_of_name(args[index + 1]) {
                Some(stage) => cli_args_from(args, index + 2, (SemanticCliArgs { stage, ..said })),
                None => Err("unsupported_semantic_rebuild_stage:"@ + args[index + 1]),
            }
        }
    } else {
        match after_prefix(args[index], "--stage="@) {
            Some(name) => match stage_of_name(name) {
                Some(stage) => cli_args_from(args, index + 1, (SemanticCliArgs { stage, ..said })),
                None => Err("unsupported_semantic_rebuild_stage:"@ + name),
            },
            None => if starts_with(args[index], "--"@) {
                cli_args_from(args, index + 1, said)
            } else {
                cli_args_from(
                    args,
                    index + 1,
                    (SemanticCliArgs { config_path: args[index], ..said }),
                )
            },
        }
    }
}

/// What the arguments after the command's name say.
pub open spec fn cli_args(args: Seq<Seq<char>>) -> Result<SemanticCliArgs, Seq<char>> {
    cli_args_from(
        args,
        1,
        (SemanticCliArgs {
            config_path: "services/discovery-node/config.example.toml"@,
            stage: SemanticRebuildStage::Both,
            reset: false,
        }),
    )
}

/// The path of the configuration, the stage, and whether to start afresh: what
/// the arguments after the command's name say.
pub fn parse_semantic_cli_args(args: &[String]) -> (result: Result<
    (String, SemanticRebuildStage, bool),
    String,
>)
    ensures
        match (result, cli_args(texts(args@))) {
            (Ok(parsed), Ok(said)) => parsed.0@ == said.config_path && parsed.1 == said.stage
                && parsed.2 == said.reset,
            (Err(error), Err(expected)) => error@ == expected,
            _ => false,
        },
{
    let mut config_path = "services/discovery-node/config.example.toml".to_owned();
    let mut stage = SemanticRebuildStage::Both;
    let mut reset = false;
    let mut index: usize = 1;
    let ghost all = texts(args@);
    while index < args.len()
        invariant
            1 <= index,
            all == texts(args@),
            cli_args(all) == cli_args_from(
                all,
                index as int,
                (SemanticCliArgs { config_path: config_path@, stage, reset }),
            ),
        decreases args@.len() - index,
    {
        let arg = &args[index];
        assert(all[index as int] == arg@);
        if same_text(arg, "--reset") {
            reset = true;
            index = index + 1;
        } else if same_text(arg, "--stage") {
            if args.len() - index == 1 {
                return Err("missing_semantic_rebuild_stage".to_owned());
            }
            assert(all[index as int + 1] == args@[index as int + 1]@);
            match SemanticRebuildStage::from_arg(&args[index + 1]) {
                Ok(named) => {
                    stage = named;
                },
                Err(error) => {
                    return Err(error);
                },
            }
            if args.len() - index == 2 {
                index = args.len();
            } else {
                index = index + 2;
            }
        } else if let Some(name) = text_after_prefix(arg, "--stage=") {
            match SemanticRebuildStage::from_arg(&name) {
                Ok(named) => {
                    stage = named;
                },
                Err(error) => {
                    return Err(error);
                },
            }
            index = index + 1;
        } else {
            if !text_starts_with(arg, "--") {
                config_path = arg.clone();
            }
            index = index + 1;
        }
    }
    Ok((config_path, stage, reset))
}

/// The path that `path` names from the directory `base`. Both are Unix paths:
/// one that starts with a slash is absolute, and a slash parts names.
pub open spec fn resolved_path(base: Seq<char>, path: Seq<char>) -> Seq<char> {
    if starts_with(path, "/"@) || base.len() == 0 {
        path
    } else if ends_with(base, "/"@) {
        base + path
    } else {
        base + "/"@ + path
    }
}

/// The path that `path` names from the directory `base`: itself where it is
/// absolute, or else the path below `base`. Both are Unix paths: only one that
/// starts with a slash is absolute, and a slash parts names.
pub fn resolve_relative(base: &str, path: &str) -> (resolved: String)
    ensures
        resolved@ == resolved_path(base@, path@),
{
    if text_starts_with(path, "/") || base.is_empty() {
        path.to_owned()
    } else {
        let mut resolved = base.to_owned();
        if !text_ends_with(base, "/") {
            resolved.append("/");
        }
        resolved.append(path);
        resolved
    }
}

/// The path in the URL of an SQLite database.
pub open spec fn sqlite_path(url: Seq<char>) -> Option<Seq<char>> {
    match after_prefix(url, "sqlite://"@) {
        Some(path) => Some(path),
        None => after_prefix(url, "sqlite:"@),
    }
}

/// The URL with the path of an SQLite database, a Unix path, resolved; any other
/// as it is.
pub open spec fn resolved_database_url(base: Seq<char>, url: Seq<char>) -> Seq<char> {
    match sqlite_path(url) {
        Some(path) => "sqlite:"@ + resolved_path(base, path),
        None => url,
    }
}

/// The URL with the path of an SQLite database, a Unix path, resolved; any other
/// as it is.
pub fn resolve_database_url(base: &str, url: &str) -> (resolved: String)
    ensures
        resolved@ == resolved_database_url(base@, url@),
{
    let path = match text_after_prefix(url, "sqlite://") {
        Some(path) => Some(path),
        None => text_after_prefix(url, "sqlite:"),
    };
    match path {
        Some(path) => {
            let mut resolved = "sqlite:".to_owned();
            resolved.append(&resolve_relative(base, &path));
            resolved
        },
        None => url.to_owned(),
    }
}

/// An absolute Unix path is not changed, wherever it is resolved from.
pub proof fn law_absolute_paths_are_kept(base: Seq<char>, path: Seq<char>)
    requires
        starts_with(path, "/"@),
    ensures
        resolved_path(base, path) == path,
{
}

/// `text` without a byte order mark at its start.
pub open spec fn without_bom(text: Seq<char>) -> Seq<char> {
    if text.len() > 0 && text[0] == '\u{feff}' {
        text.drop_first()
    } else {
        text
    }
}

/// `text` without a byte order mark at its start.
pub fn strip_bom(text: &str) -> (stripped: String)
    ensures
        stripped@ == without_bom(text@),
{
    let chars = chars_of(text);
    if chars.len() > 0 && chars[0] == '\u{feff}' {
        text_between(&chars, 1, chars.len())
    } else {
        text.to_owned()
    }
}

/// The suite of that signature algorithm, where there is one.
pub open spec fn suite_of_algorithm(algorithm: Seq<char>) -> Option<CryptoSuite> {
    if algorithm == "Ed25519"@ {
        Some(CryptoSuite::Ed25519Sha256)
    } else if algorithm == "SM2"@ {
        Some(CryptoSuite::Sm2Sm3)
    } else {
        None
    }
}

/// The suite of that signature algorithm.
pub fn crypto_suite_from_algorithm(value: &str) -> (result: Result<CryptoSuite, String>)
    ensures
        result is Ok <==> suite_of_algorithm(value@) is Some,
        result matches Ok(suite) ==> suite_of_algorithm(value@) == Some(suite),
        result matches Err(error) ==> error@ == "unsupported_algorithm: "@ + value@,
{
    if same_text(value, "Ed25519") {
        Ok(CryptoSuite::Ed25519Sha256)
    } else if same_text(value, "SM2") {
        Ok(CryptoSuite::Sm2Sm3)
    } else {
        let mut error = "unsupported_algorithm: ".to_owned();
        error.append(value);
        Err(error)
    }
}

/// The bytes that `URL_SAFE_NO_PAD` of the crate `base64` decodes a text to, or
/// its error in words.
pub uninterp spec fn url_safe_bytes(text: Seq<char>) -> Result<Seq<u8>, Seq<char>>;

/// What `oan_crypto::signing_key_from_bytes` finds wrong with a key of that
/// suite, in words; nothing where it accepts it.
pub uninterp spec fn signing_key_fault(suite: CryptoSuite, key: Seq<u8>) -> Option<Seq<char>>;

/// The bytes or the text of a result.
pub open spec fn decoded(result: Result<Vec<u8>, String>) -> Result<Seq<u8>, Seq<char>> {
    match result {
        Ok(bytes) => Ok(bytes@),
        Err(error) => Err(error@),
    }
}

/// `URL_SAFE_NO_PAD.decode` of the crate `base64`: the decoded bytes or the
/// error in words, a function of the text alone.
#[verifier::external_body]
fn decode_url_safe(text: &str) -> (result: Result<Vec<u8>, String>)
    ensures
        decoded(result) == url_safe_bytes(text@),
{
    let engine = base64::engine::general_purpose::URL_SAFE_NO_PAD;
    base64::Engine::decode(&engine, text).map_err(|error| error.to_string())
}

/// `oan_crypto::signing_key_from_bytes`: the error in words where it does not
/// make a key of the bytes, a function of the suite and the bytes alone. Any
/// thirty-two bytes are an Ed25519 key, and no other number is.
#[verifier::external_body]
fn fault_of_signing_key(suite: CryptoSuite, key: &Vec<u8>) -> (fault: Option<String>)
    ensures
        optional_text(fault) == signing_key_fault(suite, key@),
        suite !is Sm2Sm3 ==> (fault is None <==> key@.len() == 32),
        fault matches Some(text) ==> text@ == "invalid signing key"@,
{
    let suite = match suite {
        CryptoSuite::Ed25519Sha256Legacy => oan_core::CryptoSuite::Ed25519Sha256Legacy,
        CryptoSuite::Ed25519Sha256 => oan_core::CryptoSuite::Ed25519Sha256,
        CryptoSuite::Sm2Sm3 => oan_core::CryptoSuite::Sm2Sm3,
    };
    oan_crypto::signing_key_from_bytes(suite, key).err().map(|error| error.to_string())
}

/// What is wrong with a key file that names an algorithm, given what its key
/// decodes to and what is wrong with that key; nothing where the node can use it.
pub open spec fn key_fault(
    algorithm: Seq<char>,
    key: Result<Seq<u8>, Seq<char>>,
    fault: Option<Seq<char>>,
) -> Option<Seq<char>> {
    match suite_of_algorithm(algorithm) {
        None => Some("unsupported_algorithm: "@ + algorithm),
        Some(_) => match key {
            Err(error) => Some(error),
            Ok(_) => fault,
        },
    }
}

/// What is wrong with a key file that names an algorithm and holds an encoded
/// key; nothing where the node can use it.
pub open spec fn key_file_fault(algorithm: Seq<char>, encoded_key: Seq<char>) -> Option<Seq<char>> {
    let key = url_safe_bytes(encoded_key);
    key_fault(
        algorithm,
        key,
        match (suite_of_algorithm(algorithm), key) {
            (Some(suite), Ok(bytes)) => signing_key_fault(suite, bytes),
            _ => None,
        },
    )
}

/// Accepts a key file by its algorithm, what its key decodes to and what is
/// wrong with that key.
pub fn judge_key(algorithm: &str, key: &Result<Vec<u8>, String>, fault: &Option<String>) -> (result:
    Result<(), String>)
    ensures
        result is Ok <==> key_fault(algorithm@, decoded(*key), optional_text(*fault)) is None,
        result matches Err(error) ==> key_fault(algorithm@, decoded(*key), optional_text(*fault))
            == Some(error@),
{
    if let Err(error) = crypto_suite_from_algorithm(algorithm) {
        return Err(error);
    }
    match key {
        Err(error) => Err(error.clone()),
        Ok(_) => match fault {
            Some(fault) => Err(fault.clone()),
            None => Ok(()),
        },
    }
}

/// Accepts a key file that names a known algorithm and holds a key of its suite.
pub fn check_key_file(algorithm: &str, encoded_key: &str) -> (result: Result<(), String>)
    ensures
        result is Ok <==> key_file_fault(algorithm@, encoded_key@) is None,
        result matches Err(error) ==> key_file_fault(algorithm@, encoded_key@) == Some(error@),
{
    let key = decode_url_safe(encoded_key);
    let fault = match (crypto_suite_from_algorithm(algorithm), &key) {
        (Ok(suite), Ok(bytes)) => fault_of_signing_key(suite, bytes),
        _ => None,
    };
    judge_key(algorithm, &key, &fault)
}

/// Where the index is kept.
#[derive(Clone, Copy, Debug, PartialEq, Eq, Structural)]
pub enum StorageBackend {
    Json,
    Sqlite,
    Postgres,
}

/// The database that a URL names, or why it names none.
pub open spec fn database_of_url(url: Seq<char>) -> Result<StorageBackend, Seq<char>> {
    match sqlite_path(url) {
        Some(path) => if path.len() == 0 {
            Err("database path is empty"@)
        } else {
            Ok(StorageBackend::Sqlite)
        },
        None => if starts_with(url, "postgres://"@) || starts_with(url, "postgresql://"@) {
            Ok(StorageBackend::Postgres)
        } else {
            Err("unsupported database url scheme"@)
        },
    }
}

/// `oan_storage::DatabaseConfig::parse` and the kind of database it finds: a
/// SQLite database where a path follows `sqlite://` or `sqlite:`, a Postgres
/// database by the prefix `postgres://` or `postgresql://`; or its error in
/// words, for an empty path and for any other URL.
#[verifier::external_body]
fn parse_database_url(url: &str) -> (result: Result<StorageBackend, String>)
    ensures
        match (result, database_of_url(url@)) {
            (Ok(backend), Ok(expected)) => backend == expected,
            (Err(error), Err(expected)) => error@ == expected,
            _ => false,
        },
{
    let database = oan_storage::DatabaseConfig::parse(url).map_err(|error| error.to_string())?;
    match database.backend() {
        oan_storage::DatabaseBackend::Sqlite => Ok(StorageBackend::Sqlite),
        oan_storage::DatabaseBackend::Postgres => Ok(StorageBackend::Postgres),
    }
}

/// The storage that a database URL names, or why it names none: files where
/// there is no URL.
pub open spec fn storage_of(database_url: Option<String>) -> Result<StorageBackend, Seq<char>> {
    match database_url {
        None => Ok(StorageBackend::Json),
        Some(url) => if url@.len() == 0 {
            Ok(StorageBackend::Json)
        } else {
            database_of_url(url@)
        },
    }
}

/// The storage that a database URL names: files where there is none.
pub fn storage_backend(database_url: &Option<String>) -> (result: Result<StorageBackend, String>)
    ensures
        match (result, storage_of(*database_url)) {
            (Ok(backend), Ok(expected)) => backend == expected,
            (Err(error), Err(expected)) => error@ == expected,
            _ => false,
        },
{
    match database_url {
        None => Ok(StorageBackend::Json),
        Some(url) => {
            if url.as_str().is_empty() {
                Ok(StorageBackend::Json)
            } else {
                parse_database_url(url)
            }
        },
    }
}

/// The name of a storage.
pub open spec fn backend_name(backend: StorageBackend) -> Seq<char> {
    match backend {
        StorageBackend::Json => "json"@,
        StorageBackend::Sqlite => "sqlite"@,
        StorageBackend::Postgres => "postgres"@,
    }
}

/// The name of the storage in use.
pub fn discovery_backend_name(backend: StorageBackend) -> (name: String)
    ensures
        name@ == backend_name(backend),
{
    match backend {
        StorageBackend::Json => "json".to_owned(),
        StorageBackend::Sqlite => "sqlite".to_owned(),
        StorageBackend::Postgres => "postgres".to_owned(),
    }
}

/// The address of a service without the slashes at its end: the first where it
/// is given, or else the second.
pub fn cdn_base(cdn_endpoint: &Option<String>, root_endpoint: &str) -> (base: String)
    ensures
        base@ == without_trailing(
            match *cdn_endpoint {
                Some(endpoint) => endpoint@,
                None => root_endpoint@,
            },
            '/',
        ),
{
    match cdn_endpoint {
        Some(endpoint) => trim_trailing_char(endpoint, '/'),
        None => trim_trailing_char(root_endpoint, '/'),
    }
}

/// The hexadecimal digit of a number below sixteen, in upper case.
pub open spec fn upper_hex_digit(value: int) -> char {
    if value < 10 {
        (48 + value) as char
    } else {
        (55 + value) as char
    }
}

/// Whether a byte stands for itself in a form: an ASCII letter or digit, or
/// one of `*`, `-`, `.` and `_`.
pub open spec fn stands_in_form(byte: u8) -> bool {
    ||| 0x30 <= byte <= 0x39
    ||| 0x41 <= byte <= 0x5a
    ||| 0x61 <= byte <= 0x7a
    ||| byte == 0x2a
    ||| byte == 0x2d
    ||| byte == 0x2e
    ||| byte == 0x5f
}

/// The form of a byte: itself, a plus sign for a blank, or a percent sign and
/// two digits.
pub open spec fn form_of_byte(byte: u8) -> Seq<char> {
    if stands_in_form(byte) {
        seq![byte as char]
    } else if byte == 0x20 {
        seq!['+']
    } else {
        seq!['%', upper_hex_digit(byte as int / 16), upper_hex_digit(byte as int % 16)]
    }
}

/// The forms of bytes, one after the other.
pub open spec fn form_of_bytes(bytes: Seq<u8>) -> Seq<char>
    decreases bytes.len(),
{
    if bytes.len() == 0 {
        Seq::empty()
    } else {
        form_of_bytes(bytes.drop_last()) + form_of_byte(bytes.last())
    }
}

/// The `application/x-www-form-urlencoded` form of a text: that of its bytes in
/// UTF-8.
pub open spec fn form_urlencoded(text: Seq<char>) -> Seq<char> {
    form_of_bytes(vstd::utf8::encode_utf8(text))
}

/// `url::form_urlencoded::byte_serialize`, and what it yields put together: the
/// form of the text's bytes. ASCII letters and digits, `*`, `-`, `.` and `_`
/// stay as they are, a blank becomes a plus sign, and any other byte a percent
/// sign with two hexadecimal digits in upper case.
#[verifier::external_body]
fn encode_form(text: &str) -> (encoded: String)
    ensures
        encoded@ == form_urlencoded(text@),
{
    url::form_urlencoded::byte_serialize(text.as_bytes()).collect::<String>()
}

/// The address of a published package whose identifier is encoded already.
pub fn cdn_url_of_encoded(base: &str, encoded_did: &str) -> (url: String)
    ensures
        url@ == base@ + "/cdn/resources/"@ + encoded_did@,
{
    let mut url = base.to_owned();
    url.append("/cdn/resources/");
    url.append(encoded_did);
    url
}

/// The address of a published package.
pub fn cdn_resource_url(base: &str, resource_did: &str) -> (url: String)
    ensures
        url@ == base@ + "/cdn/resources/"@ + form_urlencoded(resource_did@),
{
    cdn_url_of_encoded(base, &encode_form(resource_did))
}

/// The arguments that were read go on with those that follow.
proof fn lemma_cli_args_go_on(
    args: Seq<Seq<char>>,
    more: Seq<Seq<char>>,
    index: int,
    said: SemanticCliArgs,
)
    requires
        1 <= index <= args.len(),
        cli_args_from(args, index, said) is Ok,
    ensures
        cli_args_from(args + more, index, said) == cli_args_from(
            args + more,
            args.len() as int,
            cli_args_from(args, index, said)->Ok_0,
        ),
    decreases args.len() - index,
{
    if index < args.len() {
        let all = args + more;
        assert(all[index] == args[index]);
        if args[index] == "--reset"@ {
            lemma_cli_args_go_on(
                args,
                more,
                index + 1,
                (SemanticCliArgs { reset: true, ..said }),
            );
        } else if args[index] == "--stage"@ {
            assert(all[index + 1] == args[index + 1]);
            let stage = stage_of_name(args[index + 1])->Some_0;
            lemma_cli_args_go_on(args, more, index + 2, (SemanticCliArgs { stage, ..said }));
        } else {
            match after_prefix(args[index], "--stage="@) {
                Some(name) => {
                    let stage = stage_of_name(name)->Some_0;
                    lemma_cli_args_go_on(
                        args,
                        more,
                        index + 1,
                        (SemanticCliArgs { stage, ..said }),
                    );
                },
                None => {
                    if starts_with(args[index], "--"@) {
                        lemma_cli_args_go_on(args, more, index + 1, said);
                    } else {
                        lemma_cli_args_go_on(
                            args,
                            more,
                            index + 1,
                            (SemanticCliArgs { config_path: args[index], ..said }),
                        );
                    }
                },
            }
        }
    }
}

/// A command without arguments reads the example configuration, rebuilds both
/// indexes, and goes on where it stopped.
pub proof fn law_commands_have_defaults(command: Seq<char>)
    ensures
        cli_args(seq![command]) matches Ok(said) && said.config_path
            == "services/discovery-node/config.example.toml"@ && said.stage is Both && !said.reset,
{
}

/// What one more argument adds to a command that is understood: `--reset`
/// starts afresh, a stage or a path replaces the earlier one, another option is
/// passed over, and nothing else changes.
pub proof fn law_later_arguments_change_what_they_name(args: Seq<Seq<char>>, arg: Seq<char>)
    requires
        args.len() >= 1,
        cli_args(args) is Ok,
    ensures
        ({
            let before = cli_args(args)->Ok_0;
            let after = cli_args(args.push(arg));
            &&& arg == "--reset"@ ==> (after matches Ok(said) && said.reset && said.stage
                == before.stage && said.config_path == before.config_path)
            &&& arg == "--stage"@ ==> after == Err::<SemanticCliArgs, Seq<char>>(
                "missing_semantic_rebuild_stage"@,
            )
            &&& !starts_with(arg, "--"@) ==> (after matches Ok(said) && said.config_path == arg
                && said.stage == before.stage && said.reset == before.reset)
            &&& starts_with(arg, "--"@) && arg != "--reset"@ && arg != "--stage"@ && !starts_with(
                arg,
                "--stage="@,
            ) ==> after == Ok::<SemanticCliArgs, Seq<char>>(before)
        }),
{
    let start = SemanticCliArgs {
        config_path: "services/discovery-node/config.example.toml"@,
        stage: SemanticRebuildStage::Both,
        reset: false,
    };
    let all = args + seq![arg];
    lemma_cli_args_go_on(args, seq![arg], 1, start);
    assert(args.push(arg) =~= all);
    assert(all[args.len() as int] == arg);
    reveal_with_fuel(cli_args_from, 2);
    lemma_option_names();
    if !starts_with(arg, "--"@) {
        if starts_with(arg, "--stage="@) {
            assert(arg.subrange(0, 8) == "--stage="@);
            assert(arg.subrange(0, 2) =~= "--stage="@.subrange(0, 2));
            assert("--stage="@.subrange(0, 2) =~= "--"@);
        }
    }
}

/// How the names of the options begin.
proof fn lemma_option_names()
    ensures
        "--"@.len() == 2,
        "--stage="@.len() == 8,
        "--stage="@.subrange(0, 2) == "--"@,
        "--reset"@ != "--stage"@,
        starts_with("--reset"@, "--"@),
        starts_with("--stage"@, "--"@),
        !starts_with("--stage"@, "--stage="@),
        !starts_with("--reset"@, "--stage="@),
{
    reveal_strlit("--");
    reveal_strlit("--stage=");
    reveal_strlit("--reset");
    reveal_strlit("--stage");
    assert("--stage="@.subrange(0, 2) =~= "--"@);
    assert("--reset"@.subrange(0, 2) =~= "--"@);
    assert("--stage"@.subrange(0, 2) =~= "--"@);
    assert("--reset"@[2] == 'r');
    assert("--stage"@[2] == 's');
    assert("--stage"@.len() == 7);
    assert("--reset"@.len() == 7);
}

/// A stage can be named by an argument of its own or with an equals sign, alike:
/// the stage of that name is rebuilt and nothing else changes; a name of no stage
/// is refused, with the name.
pub proof fn law_stages_are_named_in_two_ways(args: Seq<Seq<char>>, name: Seq<char>)
    requires
        args.len() >= 1,
        cli_args(args) is Ok,
    ensures
        ({
            let before = cli_args(args)->Ok_0;
            let apart = cli_args(args + seq!["--stage"@, name]);
            let together = cli_args(args + seq!["--stage="@ + name]);
            &&& apart == together
            &&& name == "both"@ || name == "context"@ || name == "intent"@ ==> (apart matches Ok(
                said,
            ) && said.config_path == before.config_path && said.reset == before.reset)
            &&& name == "both"@ ==> (apart matches Ok(said) && said.stage is Both)
            &&& name == "context"@ ==> (apart matches Ok(said) && said.stage is Context)
            &&& name == "intent"@ ==> (apart matches Ok(said) && said.stage is Intent)
            &&& name != "both"@ && name != "context"@ && name != "intent"@ ==> apart == Err::<
                SemanticCliArgs,
                Seq<char>,
            >("unsupported_semantic_rebuild_stage:"@ + name)
        }),
{
    let start = SemanticCliArgs {
        config_path: "services/discovery-node/config.example.toml"@,
        stage: SemanticRebuildStage::Both,
        reset: false,
    };
    lemma_cli_args_go_on(args, seq!["--stage"@, name], 1, start);
    lemma_cli_args_go_on(args, seq!["--stage="@ + name], 1, start);
    lemma_option_names();
    law_text_starts_and_ends_with_its_parts("--stage="@, name);
    let apart = args + seq!["--stage"@, name];
    let together = args + seq!["--stage="@ + name];
    let n = args.len() as int;
    assert(apart[n] == "--stage"@);
    assert(apart[n + 1] == name);
    assert(together[n] == "--stage="@ + name);
    assert(("--stage="@ + name).len() >= 8);
    assert("--stage="@ + name != "--stage"@) by {
        reveal_strlit("--stage");
        assert("--stage"@.len() == 7);
    }
    assert("--stage="@ + name != "--reset"@) by {
        reveal_strlit("--reset");
        assert("--reset"@.len() == 7);
    }
    reveal_with_fuel(cli_args_from, 2);
    law_stages_have_their_names(SemanticRebuildStage::Both, name);
    law_stages_have_their_names(SemanticRebuildStage::Context, name);
    law_stages_have_their_names(SemanticRebuildStage::Intent, name);
}

/// A relative path stands below the directory, after a single slash; without a
/// directory it stays as it is.
pub proof fn law_relative_paths_stand_below_the_directory(base: Seq<char>, path: Seq<char>)
    ensures
        resolved_path(Seq::empty(), path) == path,
        !starts_with(path, "/"@) && base.len() > 0 && base.last() != '/' ==> resolved_path(
            base,
            path,
        ) == base + "/"@ + path,
        !starts_with(path, "/"@) ==> resolved_path(base + "/"@, path) == base + "/"@ + path,
{
    reveal_strlit("/");
    law_text_starts_and_ends_with_its_parts(base, "/"@);
    if base.len() > 0 && ends_with(base, "/"@) {
        assert(base.subrange(base.len() - 1, base.len() as int)[0] == base.last());
        assert("/"@[0] == '/');
    }
}

/// The path of an SQLite database is resolved, however its URL is written, and
/// other URLs stay as they are.
pub proof fn law_database_paths_are_resolved(base: Seq<char>, path: Seq<char>, url: Seq<char>)
    ensures
        resolved_database_url(base, "sqlite://"@ + path) == "sqlite:"@ + resolved_path(base, path),
        !starts_with(path, "//"@) ==> resolved_database_url(base, "sqlite:"@ + path) == "sqlite:"@
            + resolved_path(base, path),
        !starts_with(url, "sqlite:"@) ==> resolved_database_url(base, url) == url,
{
    lemma_sqlite_urls(path, url);
}

/// What follows the scheme of the URL of an SQLite database is its path.
proof fn lemma_sqlite_urls(path: Seq<char>, url: Seq<char>)
    ensures
        sqlite_path("sqlite://"@ + path) == Some(path),
        !starts_with(path, "//"@) ==> sqlite_path("sqlite:"@ + path) == Some(path),
        !starts_with(url, "sqlite:"@) ==> sqlite_path(url) is None,
{
    reveal_strlit("sqlite:");
    reveal_strlit("sqlite://");
    reveal_strlit("//");
    law_text_starts_and_ends_with_its_parts("sqlite://"@, path);
    law_text_starts_and_ends_with_its_parts("sqlite:"@, path);
    let short = "sqlite:"@ + path;
    if starts_with(short, "sqlite://"@) {
        assert(short.subrange(0, 9) == "sqlite://"@);
        assert(path.subrange(0, 2) =~= "//"@) by {
            assert(short.subrange(0, 9)[7] == path[0]);
            assert(short.subrange(0, 9)[8] == path[1]);
        }
    }
    if starts_with(url, "sqlite://"@) {
        assert(url.subrange(0, 9) == "sqlite://"@);
        assert(url.subrange(0, 7) =~= "sqlite:"@) by {
            assert(url.subrange(0, 7) =~= url.subrange(0, 9).subrange(0, 7));
        }
    }
}

/// The index is kept in files where no database is named, in SQLite where a path
/// follows that scheme, in PostgreSQL by either of its schemes, and nowhere else.
pub proof fn law_urls_name_their_storage(database_url: Option<String>, path: Seq<char>)
    ensures
        database_url is None ==> storage_of(database_url) == Ok::<StorageBackend, Seq<char>>(
            StorageBackend::Json,
        ),
        database_url matches Some(url) ==> {
            &&& url@.len() == 0 ==> storage_of(database_url) == Ok::<StorageBackend, Seq<char>>(
                StorageBackend::Json,
            )
            &&& path.len() > 0 && url@ == "sqlite://"@ + path ==> storage_of(database_url)
                == Ok::<StorageBackend, Seq<char>>(StorageBackend::Sqlite)
            &&& path.len() > 0 && !starts_with(path, "//"@) && url@ == "sqlite:"@ + path
                ==> storage_of(database_url) == Ok::<StorageBackend, Seq<char>>(
                StorageBackend::Sqlite,
            )
            &&& url@ == "sqlite://"@ || url@ == "sqlite:"@ ==> storage_of(database_url) == Err::<
                StorageBackend,
                Seq<char>,
            >("database path is empty"@)
            &&& url@ == "postgres://"@ + path || url@ == "postgresql://"@ + path ==> storage_of(
                database_url,
            ) == Ok::<StorageBackend, Seq<char>>(StorageBackend::Postgres)
            &&& url@.len() > 0 && !starts_with(url@, "sqlite:"@) && !starts_with(
                url@,
                "postgres://"@,
            ) && !starts_with(url@, "postgresql://"@) ==> storage_of(database_url) == Err::<
                StorageBackend,
                Seq<char>,
            >("unsupported database url scheme"@)
        },
{
    if let Some(url) = database_url {
        lemma_sqlite_urls(path, url@);
        lemma_sqlite_urls(Seq::empty(), url@);
        assert("sqlite://"@ + Seq::<char>::empty() =~= "sqlite://"@);
        assert("sqlite:"@ + Seq::<char>::empty() =~= "sqlite:"@);
        reveal_strlit("sqlite:");
        reveal_strlit("sqlite://");
        reveal_strlit("//");
        reveal_strlit("postgres://");
        reveal_strlit("postgresql://");
        assert("sqlite:"@.len() == 7);
        assert("sqlite:"@[0] == 's');
        assert("postgres://"@.len() == 11);
        assert("postgresql://"@.len() == 13);
        assert("postgres://"@[0] == 'p');
        assert("postgresql://"@[0] == 'p');
        law_text_starts_and_ends_with_its_parts("postgres://"@, path);
        law_text_starts_and_ends_with_its_parts("postgresql://"@, path);
        if starts_with(url@, "sqlite:"@) {
            assert(url@.subrange(0, 7)[0] == url@[0]);
        }
        assert(!starts_with(Seq::<char>::empty(), "//"@));
    }
}

/// A byte order mark at the start of a text is taken off, once, and nothing else
/// is.
pub proof fn law_marks_at_the_start_are_taken_off(text: Seq<char>)
    ensures
        without_bom(seq!['\u{feff}'] + text) == text,
        text.len() == 0 || text[0] != '\u{feff}' ==> without_bom(text) == text,
{
    assert((seq!['\u{feff}'] + text).drop_first() =~= text);
}

/// Keys are of two algorithms, each with its suite; a key file of another is
/// refused with its name, one whose key is no encoded text with that error, and
/// one with a key that does not fit with that fault.
pub proof fn law_key_files_are_judged_in_order(
    algorithm: Seq<char>,
    key: Result<Seq<u8>, Seq<char>>,
    fault: Option<Seq<char>>,
)
    ensures
        suite_of_algorithm("Ed25519"@) == Some(CryptoSuite::Ed25519Sha256),
        suite_of_algorithm("SM2"@) == Some(CryptoSuite::Sm2Sm3),
        algorithm != "Ed25519"@ && algorithm != "SM2"@ ==> key_fault(algorithm, key, fault) == Some(
            "unsupported_algorithm: "@ + algorithm,
        ),
        algorithm == "Ed25519"@ || algorithm == "SM2"@ ==> (key matches Err(error) ==> key_fault(
            algorithm,
            key,
            fault,
        ) == Some(error)),
        (algorithm == "Ed25519"@ || algorithm == "SM2"@) && key is Ok ==> key_fault(
            algorithm,
            key,
            fault,
        ) == fault,
{
    reveal_strlit("Ed25519");
    reveal_strlit("SM2");
    assert("Ed25519"@.len() == 7);
    assert("SM2"@.len() == 3);
}

/// A key file is accepted just where its algorithm is known, its key can be
/// decoded, and that key is one of the algorithm's suite.
pub proof fn law_accepted_key_files_hold_a_key(algorithm: Seq<char>, encoded_key: Seq<char>)
    ensures
        key_file_fault(algorithm, encoded_key) is None <==> (url_safe_bytes(encoded_key) matches Ok(
            key,
        ) && ((algorithm == "Ed25519"@ && signing_key_fault(CryptoSuite::Ed25519Sha256, key)
            is None) || (algorithm == "SM2"@ && signing_key_fault(CryptoSuite::Sm2Sm3, key)
            is None))),
{
    reveal_strlit("Ed25519");
    reveal_strlit("SM2");
    assert("Ed25519"@.len() == 7);
    assert("SM2"@.len() == 3);
}

/// The storages have three different names.
pub proof fn law_storages_have_their_names(first: StorageBackend, second: StorageBackend)
    ensures
        backend_name(StorageBackend::Json) == "json"@,
        backend_name(StorageBackend::Sqlite) == "sqlite"@,
        backend_name(StorageBackend::Postgres) == "postgres"@,
        backend_name(first) == backend_name(second) ==> first == second,
{
    reveal_strlit("json");
    reveal_strlit("sqlite");
    reveal_strlit("postgres");
    assert("json"@.len() == 4);
    assert("sqlite"@.len() == 6);
    assert("postgres"@.len() == 8);
}

/// Forms go byte by byte: letters, digits and four signs stand for themselves, a
/// blank is a plus sign, and any other byte is a percent sign with two digits
/// that denote it.
pub proof fn law_forms_go_byte_by_byte(first: Seq<u8>, second: Seq<u8>, byte: u8)
    ensures
        form_of_bytes(first + second) == form_of_bytes(first) + form_of_bytes(second),
        form_of_bytes(seq![byte]) == form_of_byte(byte),
        ('a' as int <= byte <= 'z' as int) || ('A' as int <= byte <= 'Z' as int) || ('0' as int
            <= byte <= '9' as int) || byte as int == '*' as int || byte as int == '-' as int
            || byte as int == '.' as int || byte as int == '_' as int ==> form_of_byte(byte)
            == seq![byte as char],
        byte as int == ' ' as int ==> form_of_byte(byte) == seq!['+'],
        !stands_in_form(byte) && byte as int != ' ' as int ==> form_of_byte(byte).len() == 3
            && form_of_byte(byte)[0] == '%' && upper_hex_value(form_of_byte(byte)[1]) * 16
            + upper_hex_value(form_of_byte(byte)[2]) == byte,
        byte as int == ':' as int || byte as int == '/' as int || byte as int == '%' as int
            || byte as int == '+' as int || byte >= 0x80 ==> !stands_in_form(byte),
    decreases second.len(),
{
    reveal_with_fuel(form_of_bytes, 2);
    assert(seq![byte].drop_last() =~= Seq::<u8>::empty());
    assert(form_of_bytes(seq![byte]) =~= form_of_byte(byte));
    if second.len() == 0 {
        assert(first + second =~= first);
        assert(form_of_bytes(first + second) =~= form_of_bytes(first) + form_of_bytes(second));
    } else {
        law_forms_go_byte_by_byte(first, second.drop_last(), byte);
        assert((first + second).drop_last() =~= first + second.drop_last());
        assert((first + second).last() == second.last());
        assert(form_of_bytes(first + second) =~= form_of_bytes(first) + form_of_bytes(second));
    }
}

/// The value of a hexadecimal digit in upper case.
pub open spec fn upper_hex_value(digit: char) -> int {
    if '0' <= digit <= '9' {
        digit as int - '0' as int
    } else {
        digit as int - 'A' as int + 10
    }
}

} // verus!
