//! Controller connection settings and small file-name helpers.

use vstd::prelude::*;
use crate::merge::cells_view;
use crate::simple_map::ConversionMap;
use crate::text::{blank, chars_end_with, chars_of, is_blank, owned, push_str_chars, string_of};

verus! {

/// Connection settings for the fabric controller.
#[derive(Debug)]
pub struct ApstraConfig {
    pub host: String,
    pub port: u16,
    pub username: String,
    pub password: String,
    pub blueprint_name: String,
    pub use_ssl: Option<bool>,
    pub verify_ssl: Option<bool>,
    pub timeout: Option<u32>,
}

/// A saved configuration with its metadata.
#[derive(Debug)]
pub struct ApstraConfigInfo {
    pub name: String,
    pub description: Option<String>,
    pub created_at: String,
    pub updated_at: String,
    pub config: ApstraConfig,
}

/// A saved conversion map with its metadata.
#[derive(Debug, Clone)]
pub struct ConversionMapInfo {
    pub name: String,
    pub description: Option<String>,
    pub created_at: String,
    pub updated_at: String,
    pub map: ConversionMap,
}

/// Decimal digits of a number.
pub open spec fn decimal(n: nat) -> Seq<char>
    decreases n,
{
    if n < 10 {
        seq![((n + 48) as u8) as char]
    } else {
        decimal(n / 10).push((((n % 10) + 48) as u8) as char)
    }
}

pub fn decimal_chars(n: u64) -> (r: Vec<char>)
    ensures
        r@ == decimal(n as nat),
    decreases n,
{
    if n < 10 {
        let mut v: Vec<char> = Vec::new();
        v.push(((n + 48) as u8) as char);
        assert(v@ =~= decimal(n as nat));
        v
    } else {
        let mut v = decimal_chars(n / 10);
        v.push((((n % 10) + 48) as u8) as char);
        v
    }
}

/// The problems of a configuration, in order.
pub open spec fn config_problems(c: ApstraConfig) -> Seq<Seq<char>> {
    (if blank(c.host@) {
        seq!["Apstra host cannot be empty"@]
    } else {
        Seq::empty()
    }) + (if c.port == 0 {
        seq!["Apstra port must be greater than 0"@]
    } else {
        Seq::empty()
    }) + (if blank(c.username@) {
        seq!["Apstra username cannot be empty"@]
    } else {
        Seq::empty()
    }) + (if blank(c.blueprint_name@) {
        seq!["Blueprint name cannot be empty"@]
    } else {
        Seq::empty()
    })
}

/// `scheme://host:port`, over https unless SSL is switched off.
pub open spec fn base_url(c: ApstraConfig) -> Seq<char> {
    (if c.use_ssl == Some(false) {
        "http"@
    } else {
        "https"@
    }) + "://"@ + c.host@ + ":"@ + decimal(c.port as nat)
}

/// Items joined with a separator.
pub open spec fn joined(items: Seq<Seq<char>>, sep: Seq<char>) -> Seq<char>
    decreases items.len(),
{
    if items.len() == 0 {
        Seq::empty()
    } else if items.len() == 1 {
        items[0]
    } else {
        joined(items.drop_last(), sep) + sep + items.last()
    }
}

pub fn join_strings(items: &Vec<String>, sep: &str) -> (r: String)
    ensures
        r@ == joined(cells_view(items@), sep@),
{
    let ghost iv = cells_view(items@);
    let mut out: Vec<char> = Vec::new();
    let mut i: usize = 0;
    assert(iv.subrange(0, 0) =~= Seq::<Seq<char>>::empty());
    while i < items.len()
        invariant
            i <= items@.len(),
            iv == cells_view(items@),
            out@ == joined(iv.subrange(0, i as int), sep@),
        decreases items.len() - i,
    {
        let ghost pre = iv.subrange(0, i + 1);
        assert(pre.drop_last() =~= iv.subrange(0, i as int));
        assert(pre.last() == items@[i as int]@);
        if i > 0 {
            push_str_chars(&mut out, sep);
        } else {
            assert(out@ == Seq::<char>::empty());
        }
        push_str_chars(&mut out, items[i].as_str());
        i = i + 1;
        if i == 1 {
            assert(out@ =~= pre[0]);
        }
    }
    assert(iv.subrange(0, iv.len() as int) =~= iv);
    string_of(&out)
}

impl ApstraConfig {
    /// Settings with SSL on, certificate checks off and a 30 s timeout.
    pub fn new(host: String, port: u16, username: String, password: String, blueprint_name: String) -> (r: ApstraConfig)
        ensures
            r.host == host,
            r.port == port,
            r.username == username,
            r.password == password,
            r.blueprint_name == blueprint_name,
            r.use_ssl == Some(true),
            r.verify_ssl == Some(false),
            r.timeout == Some(30u32),
    {
        ApstraConfig {
            host,
            port,
            username,
            password,
            blueprint_name,
            use_ssl: Some(true),
            verify_ssl: Some(false),
            timeout: Some(30),
        }
    }

    /// The configuration's problems: blank host, user or blueprint, port 0.
    pub fn validate(&self) -> (r: Result<(), Vec<String>>)
        ensures
            match r {
                Ok(_) => config_problems(*self).len() == 0,
                Err(v) => cells_view(v@) == config_problems(*self) && v@.len() > 0,
            },
    {
        let mut errors: Vec<String> = Vec::new();
        let ghost c = *self;
        let ghost a = if blank(c.host@) { seq!["Apstra host cannot be empty"@] } else { Seq::<Seq<char>>::empty() };
        let ghost b = if c.port == 0 { seq!["Apstra port must be greater than 0"@] } else { Seq::<Seq<char>>::empty() };
        let ghost d = if blank(c.username@) { seq!["Apstra username cannot be empty"@] } else { Seq::<Seq<char>>::empty() };
        let ghost e = if blank(c.blueprint_name@) { seq!["Blueprint name cannot be empty"@] } else { Seq::<Seq<char>>::empty() };
        if is_blank(self.host.as_str()) {
            errors.push(owned("Apstra host cannot be empty"));
        }
        assert(cells_view(errors@) =~= a);
        if self.port == 0 {
            errors.push(owned("Apstra port must be greater than 0"));
        }
        assert(cells_view(errors@) =~= a + b);
        if is_blank(self.username.as_str()) {
            errors.push(owned("Apstra username cannot be empty"));
        }
        assert(cells_view(errors@) =~= a + b + d);
        if is_blank(self.blueprint_name.as_str()) {
            errors.push(owned("Blueprint name cannot be empty"));
        }
        assert(cells_view(errors@) =~= a + b + d + e);
        if errors.len() == 0 {
            Ok(())
        } else {
            Err(errors)
        }
    }

    /// The controller's base URL.
    pub fn get_base_url(&self) -> (r: String)
        ensures
            r@ == base_url(*self),
    {
        let mut v: Vec<char> = Vec::new();
        let ssl = match self.use_ssl {
            Some(false) => false,
            _ => true,
        };
        if ssl {
            push_str_chars(&mut v, "https");
        } else {
            push_str_chars(&mut v, "http");
        }
        push_str_chars(&mut v, "://");
        push_str_chars(&mut v, self.host.as_str());
        push_str_chars(&mut v, ":");
        let d = decimal_chars(self.port as u64);
        let ghost before = v@;
        let mut i: usize = 0;
        while i < d.len()
            invariant
                i <= d@.len(),
                v@ == before + d@.subrange(0, i as int),
            decreases d.len() - i,
        {
            v.push(d[i]);
            i = i + 1;
            assert(v@ =~= before + d@.subrange(0, i as int));
        }
        assert(d@.subrange(0, d@.len() as int) =~= d@);
        string_of(&v)
    }

    /// A copy for display, its password (when set) replaced by bullets.
    pub fn mask_password(&self) -> (r: ApstraConfig)
        ensures
            r.host@ == self.host@,
            r.port == self.port,
            r.username@ == self.username@,
            r.blueprint_name@ == self.blueprint_name@,
            r.use_ssl == self.use_ssl,
            r.verify_ssl == self.verify_ssl,
            r.timeout == self.timeout,
            r.password@ == if self.password@.len() == 0 {
                self.password@
            } else {
                "\u{2022}\u{2022}\u{2022}\u{2022}\u{2022}"@
            },
    {
        let password = if self.password.unicode_len() == 0 {
            self.password.clone()
        } else {
            owned("\u{2022}\u{2022}\u{2022}\u{2022}\u{2022}")
        };
        ApstraConfig {
            host: self.host.clone(),
            port: self.port,
            username: self.username.clone(),
            password,
            blueprint_name: self.blueprint_name.clone(),
            use_ssl: self.use_ssl,
            verify_ssl: self.verify_ssl,
            timeout: self.timeout,
        }
    }
}

impl Default for ApstraConfig {
    /// The lab controller's settings with an empty password.
    fn default() -> (r: Self)
        ensures
            r.host@ == "10.85.192.59"@,
            r.port == 443,
            r.username@ == "admin"@,
            r.password@.len() == 0,
            r.blueprint_name@ == "terra"@,
            r.use_ssl == Some(true),
            r.verify_ssl == Some(false),
            r.timeout == Some(30u32),
    {
        ApstraConfig {
            host: owned("10.85.192.59"),
            port: 443,
            username: owned("admin"),
            password: String::new(),
            blueprint_name: owned("terra"),
            use_ssl: Some(true),
            verify_ssl: Some(false),
            timeout: Some(30),
        }
    }
}

/// Checks controller settings before a connection is attempted.
pub struct ApstraConfigService {}

impl ApstraConfigService {
    /// `Ok(true)` for a valid configuration, else the problems joined.
    pub fn test_connection(config: &ApstraConfig) -> (r: Result<bool, String>)
        ensures
            config_problems(*config).len() == 0 <==> r is Ok,
            r matches Ok(b) ==> b,
            r matches Err(m) ==> m@ == "Configuration validation failed: "@ + joined(
                config_problems(*config),
                ", "@,
            ),
    {
        match config.validate() {
            Ok(_) => Ok(true),
            Err(errors) => {
                let mut v: Vec<char> = Vec::new();
                push_str_chars(&mut v, "Configuration validation failed: ");
                let j = join_strings(&errors, ", ");
                push_str_chars(&mut v, j.as_str());
                Err(string_of(&v))
            },
        }
    }
}

/// File-name helpers for uploaded workbooks.
pub struct FileUtils {}

impl FileUtils {
    /// The name under which an upload is staged.
    pub fn create_temp_file(upload_name: &str) -> (r: Result<String, String>)
        ensures
            r matches Ok(s) && s@ == "temp_"@ + upload_name@,
    {
        let mut v: Vec<char> = Vec::new();
        push_str_chars(&mut v, "temp_");
        push_str_chars(&mut v, upload_name);
        Ok(string_of(&v))
    }

    /// Whether a path names an `.xlsx` workbook.
    pub fn validate_file_type(file_path: &str) -> (r: bool)
        ensures
            r == crate::text::ends_with(file_path@, ".xlsx"@),
    {
        let v = chars_of(file_path);
        chars_end_with(&v, ".xlsx")
    }
}

} // verus!
