//! What the program is told on its command line, and where it keeps its data.
use vstd::prelude::*;

use crate::providers::{Model, ModelV};
use crate::text::{
    chars_of, concat2, concat3, decimal, decimal_text, ends_with, lemma_ends_with, opt_view,
};

verus! {

/// What the program is told.
#[derive(Debug, PartialEq)]
pub struct Cli {
    pub telegram_token: String,
    pub provider: Option<String>,
    pub api_key: Option<String>,
    pub base_url: Option<String>,
    /// The users that are served.
    pub allowed_ids: Vec<u64>,
    /// The file that configures the servers whose tools are to come in.
    pub mcps: Option<String>,
    /// The key of the DeepSeek provider.
    pub deepseek: Option<String>,
}

/// What a [`Cli`] is.
#[verifier::ext_equal]
pub struct CliV {
    pub telegram_token: Seq<char>,
    pub provider: Option<Seq<char>>,
    pub api_key: Option<Seq<char>>,
    pub base_url: Option<Seq<char>>,
    pub allowed_ids: Seq<u64>,
    pub mcps: Option<Seq<char>>,
    pub deepseek: Option<Seq<char>>,
}

impl View for Cli {
    type V = CliV;

    open spec fn view(&self) -> CliV {
        CliV {
            telegram_token: self.telegram_token@,
            provider: opt_view(self.provider),
            api_key: opt_view(self.api_key),
            base_url: opt_view(self.base_url),
            allowed_ids: self.allowed_ids@,
            mcps: opt_view(self.mcps),
            deepseek: opt_view(self.deepseek),
        }
    }
}

impl CliV {
    /// A DeepSeek key stands in for a provider and its key, where neither is named.
    pub open spec fn resolved(self) -> CliV {
        if self.provider is None && self.api_key is None && self.deepseek is Some {
            CliV {
                telegram_token: self.telegram_token,
                provider: Some("deepseek"@),
                api_key: self.deepseek,
                base_url: self.base_url,
                allowed_ids: self.allowed_ids,
                mcps: self.mcps,
                deepseek: None,
            }
        } else {
            self
        }
    }
}

impl Cli {
    /// Lets a DeepSeek key stand in for a provider and its key, where neither is named.
    pub fn resolve(self) -> (r: Cli)
        ensures
            r@ == self@.resolved(),
    {
        let mut r = self;
        if r.provider.is_none() && r.api_key.is_none() {
            let mut key: Option<String> = None;
            core::mem::swap(&mut r.deepseek, &mut key);
            match key {
                Some(key) => {
                    r.provider = Some("deepseek".to_owned());
                    r.api_key = Some(key);
                },
                None => {},
            }
        }
        r
    }
}

/// What was named is kept, and what was resolved stays so.
pub proof fn law_resolving_keeps_what_is_named(cli: CliV)
    ensures
        cli.provider is Some || cli.api_key is Some ==> cli.resolved() == cli,
        cli.resolved().resolved() == cli.resolved(),
        cli.deepseek is Some ==> cli.resolved().provider is Some || cli.resolved().api_key is Some,
{
}

/// A path behind another one. It is taken for one that does not start at the root.
pub open spec fn path_join(base: Seq<char>, part: Seq<char>) -> Seq<char> {
    if base.len() == 0 || base.last() == '/' {
        base + part
    } else {
        base + "/"@ + part
    }
}

/// A path behind another one. It is taken for one that does not start at the root.
pub fn join_path(base: &str, part: &str) -> (r: String)
    ensures
        r@ == path_join(base@, part@),
{
    let v = chars_of(base);
    if v.len() == 0 || v[v.len() - 1] == '/' {
        concat2(base, part)
    } else {
        concat3(base, "/", part)
    }
}

/// Where the program keeps its data, given what the environment says of the data directory and
/// of the user's home.
pub open spec fn data_path(data_home: Option<Seq<char>>, home: Option<Seq<char>>) -> Seq<char> {
    path_join(
        match data_home {
            Some(d) if d.len() > 0 => d,
            _ => path_join(
                match home {
                    Some(h) => h,
                    None => "."@,
                },
                ".local/share"@,
            ),
        },
        "akasha"@,
    )
}

/// Where the program keeps its data.
pub fn data_dir(data_home: Option<String>, home: Option<String>) -> (r: String)
    ensures
        r@ == data_path(opt_view(data_home), opt_view(home)),
{
    match data_home {
        Some(d) => {
            if !d.as_str().is_empty() {
                return join_path(d.as_str(), "akasha");
            }
        },
        None => {},
    }
    let home = match home {
        Some(h) => h,
        None => ".".to_owned(),
    };
    let base = join_path(home.as_str(), ".local/share");
    join_path(base.as_str(), "akasha")
}

/// The database of a user, in the directory of databases.
pub fn db_path(data_dir: &str, user: u64) -> (r: String)
    ensures
        r@ == path_join(path_join(data_dir@, "db"@), decimal(user as nat) + ".db"@),
        r@ == user_database(data_dir@, user),
{
    let dir = join_path(data_dir, "db");
    let number = decimal_text(user as u128);
    let file = concat2(number.as_str(), ".db");
    join_path(dir.as_str(), file.as_str())
}

/// The model that the program talks to.
pub fn default_model(provider: String, base_url: Option<String>) -> (r: Model)
    ensures
        r@ == (ModelV {
            id: "deepseek-v4-pro"@,
            provider: provider@,
            context_window: 384000,
            base_url: match base_url {
                Some(u) => u@,
                None => Seq::empty(),
            },
            headers: seq![("reasoning_effort"@, "max"@)],
        }),
{
    let mut headers: Vec<(String, String)> = Vec::new();
    headers.push(("reasoning_effort".to_owned(), "max".to_owned()));
    let r = Model {
        id: "deepseek-v4-pro".to_owned(),
        provider,
        context_window: 384000,
        base_url: match base_url {
            Some(u) => u,
            None => String::new(),
        },
        headers,
    };
    assert(r@.headers =~= seq![("reasoning_effort"@, "max"@)]);
    r
}

/// Where neither a provider nor its key is named, a DeepSeek key is the key of that provider;
/// nothing else is touched.
pub proof fn law_a_deepseek_key_stands_in(cli: CliV, key: Seq<char>)
    requires
        cli.provider is None,
        cli.api_key is None,
    ensures
        cli.deepseek == Some(key) ==> {
            &&& cli.resolved().provider == Some("deepseek"@)
            &&& cli.resolved().api_key == Some(key)
            &&& cli.resolved().deepseek is None
        },
        cli.deepseek is None ==> cli.resolved() == cli,
        cli.resolved().telegram_token == cli.telegram_token,
        cli.resolved().base_url == cli.base_url,
        cli.resolved().allowed_ids == cli.allowed_ids,
        cli.resolved().mcps == cli.mcps,
{
}

/// A path behind another one starts with it and ends with its own part, with one slash between
/// them: none is put in where there is one, or where nothing stands before it.
pub proof fn law_paths_are_joined_by_one_slash(base: Seq<char>, part: Seq<char>)
    ensures
        base.is_prefix_of(path_join(base, part)),
        ends_with(path_join(base, part), part),
        base.len() > 0 ==> path_join(base, part)[path_join(base, part).len() - part.len() - 1]
            == '/',
        base.len() == 0 ==> path_join(base, part) == part,
        base.len() > 0 && base.last() == '/' ==> path_join(base, part).len() == base.len()
            + part.len(),
        base.len() > 0 && base.last() != '/' ==> path_join(base, part).len() == base.len()
            + part.len() + 1,
{
    reveal_strlit("/");
    assert("/"@.len() == 1);
    let all = path_join(base, part);
    assert(all.take(base.len() as int) =~= base);
    if base.len() == 0 || base.last() == '/' {
        lemma_ends_with(base, part);
        assert(base.len() == 0 ==> all =~= part);
    } else {
        lemma_ends_with(base + "/"@, part);
    }
}

/// The program keeps its data in a directory of its own: in the data directory where one is
/// named, or else below the user's home, or below the current directory.
pub proof fn law_data_is_kept_below_a_directory_of_its_own(
    data_home: Seq<char>,
    home: Seq<char>,
    any: Option<Seq<char>>,
)
    ensures
        ends_with(data_path(any, Some(home)), "akasha"@),
        data_home.len() > 0 ==> data_path(Some(data_home), any) == path_join(data_home, "akasha"@),
        data_path(None, Some(home)) == path_join(path_join(home, ".local/share"@), "akasha"@),
        data_path(None, None) == path_join(path_join("."@, ".local/share"@), "akasha"@),
        data_path(Some(Seq::empty()), any) == data_path(None, any),
{
    let base = match any {
        Some(d) if d.len() > 0 => d,
        _ => path_join(home, ".local/share"@),
    };
    law_paths_are_joined_by_one_slash(base, "akasha"@);
}

/// The database of a user.
pub open spec fn user_database(data_dir: Seq<char>, user: u64) -> Seq<char> {
    path_join(path_join(data_dir, "db"@), decimal(user as nat) + ".db"@)
}

/// Two users never share a database, and every database lies below the data directory.
pub proof fn law_users_have_databases_of_their_own(data_dir: Seq<char>, one: u64, other: u64)
    ensures
        user_database(data_dir, one) == user_database(data_dir, other) ==> one == other,
        path_join(data_dir, "db"@).is_prefix_of(user_database(data_dir, one)),
        ends_with(user_database(data_dir, one), decimal(one as nat) + ".db"@),
{
    let dir = path_join(data_dir, "db"@);
    let first = decimal(one as nat) + ".db"@;
    let second = decimal(other as nat) + ".db"@;
    law_paths_are_joined_by_one_slash(dir, first);
    law_paths_are_joined_by_one_slash(dir, second);
    crate::text::law_numbers_are_read_back(one as nat);
    crate::text::law_numbers_are_read_back(other as nat);
    if path_join(dir, first) == path_join(dir, second) {
        assert(first.len() == second.len());
        let all = path_join(dir, first);
        assert(all.skip(all.len() - first.len()) == first);
        assert(first == second);
        assert(first.take(decimal(one as nat).len() as int) =~= decimal(one as nat));
        assert(second.take(decimal(other as nat).len() as int) =~= decimal(other as nat));
    }
}

} // verus!
