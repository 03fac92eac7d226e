use vstd::prelude::*;

use crate::text::{ends_with_spec, ends_with_str, push_str, str_eq, string_from_chars};

verus! {

/// A database configuration error.
#[derive(Debug)]
pub enum DBConfigError {
    InvalidDriver(String),
    InvalidProtocol(String),
    /// Missing a required field.
    MissingField(String),
}

/// A database configuration error, over plain values.
pub enum DBErrorView {
    InvalidDriver(Seq<char>),
    InvalidProtocol(Seq<char>),
    MissingField(Seq<char>),
}

impl View for DBConfigError {
    type V = DBErrorView;

    open spec fn view(&self) -> DBErrorView {
        match self {
            DBConfigError::InvalidDriver(s) => DBErrorView::InvalidDriver(s@),
            DBConfigError::InvalidProtocol(s) => DBErrorView::InvalidProtocol(s@),
            DBConfigError::MissingField(s) => DBErrorView::MissingField(s@),
        }
    }
}

/// How to reach the database.
#[derive(Debug)]
pub struct Config {
    pub user: String,
    pub password: String,
    pub database: String,
    /// `TCP` or `SOCKET`.
    pub protocol: String,
    pub address: String,
    pub tls: bool,
    /// `mariadb`, `mysql`, `postgres` or `sqlite`.
    pub driver: String,
}

/// The drivers that speak the MySQL protocol.
pub open spec fn mysql_family(driver: Seq<char>) -> bool {
    driver == "mariadb"@ || driver == "mysql"@
}

/// The address once the default is filled in: the MySQL socket for a MySQL
/// driver that was given no address.
pub open spec fn default_address_spec(driver: Seq<char>, address: Seq<char>) -> Seq<char> {
    if address.len() == 0 && mysql_family(driver) {
        "/var/run/mysqld/mysqld.sock"@
    } else {
        address
    }
}

/// Whether a configuration is usable: a known protocol; for a server
/// database a user and a database name; for SQLite a file address.
pub open spec fn validate_spec(c: &Config) -> Result<(), DBErrorView> {
    let protocol = c.protocol@;
    let driver = c.driver@;
    if !(protocol == "TCP"@ || protocol == "SOCKET"@) {
        Err(DBErrorView::InvalidProtocol(protocol))
    } else if mysql_family(driver) || driver == "postgres"@ {
        if c.user@.len() == 0 {
            Err(DBErrorView::MissingField("user"@))
        } else if c.database@.len() == 0 {
            Err(DBErrorView::MissingField("database"@))
        } else {
            Ok(())
        }
    } else if driver == "sqlite"@ {
        if ends_with_spec(c.address@, ".sock"@) || c.address@.len() == 0 {
            Err(DBErrorView::MissingField("address"@))
        } else {
            Ok(())
        }
    } else {
        Err(DBErrorView::InvalidDriver(driver))
    }
}

/// A name for the database fit for a log line.
pub open spec fn pretty_name_spec(c: &Config) -> Seq<char> {
    if c.protocol@ == "SOCKET"@ {
        c.database@ + " via unix socket"@
    } else {
        c.address@ + "/"@ + c.database@ + " via "@ + c.protocol@ + " (tls "@ + (if c.tls {
            "enabled"@
        } else {
            "disabled"@
        }) + ")"@
    }
}

impl Config {
    /// Fills in the address, when none was given, for drivers that have a
    /// default: the MySQL socket.
    pub fn set_default_address(&mut self)
        ensures
            final(self).address@ == default_address_spec(old(self).driver@, old(self).address@),
            final(self).user == old(self).user,
            final(self).password == old(self).password,
            final(self).database == old(self).database,
            final(self).protocol == old(self).protocol,
            final(self).tls == old(self).tls,
            final(self).driver == old(self).driver,
    {
        let mysql = str_eq(self.driver.as_str(), "mariadb") || str_eq(self.driver.as_str(), "mysql");
        if self.address.as_str().is_empty() && mysql {
            self.address = "/var/run/mysqld/mysqld.sock".to_owned();
        }
    }

    /// Checks the protocol, the driver, and the fields that the driver needs.
    pub fn validate(&self) -> (r: Result<(), DBConfigError>)
        ensures
            match r {
                Ok(()) => validate_spec(self) == Ok::<(), DBErrorView>(()),
                Err(e) => validate_spec(self) == Err::<(), DBErrorView>(e@),
            },
    {
        let protocol = self.protocol.as_str();
        let driver = self.driver.as_str();
        if !(str_eq(protocol, "TCP") || str_eq(protocol, "SOCKET")) {
            return Err(DBConfigError::InvalidProtocol(protocol.to_owned()));
        }
        if str_eq(driver, "mariadb") || str_eq(driver, "mysql") || str_eq(driver, "postgres") {
            if self.user.as_str().is_empty() {
                return Err(DBConfigError::MissingField("user".to_owned()));
            }
            if self.database.as_str().is_empty() {
                return Err(DBConfigError::MissingField("database".to_owned()));
            }
            Ok(())
        } else if str_eq(driver, "sqlite") {
            let address = self.address.as_str();
            if ends_with_str(address, ".sock") || address.is_empty() {
                return Err(DBConfigError::MissingField("address".to_owned()));
            }
            Ok(())
        } else {
            Err(DBConfigError::InvalidDriver(driver.to_owned()))
        }
    }

    /// A name for the database fit for a log line: protocol, address,
    /// database and TLS setting.
    pub fn pretty_name(&self) -> (r: String)
        ensures
            r@ == pretty_name_spec(self),
    {
        let mut v: Vec<char> = Vec::new();
        if str_eq(self.protocol.as_str(), "SOCKET") {
            push_str(&mut v, self.database.as_str());
            push_str(&mut v, " via unix socket");
            assert(v@ =~= pretty_name_spec(self));
        } else {
            push_str(&mut v, self.address.as_str());
            push_str(&mut v, "/");
            push_str(&mut v, self.database.as_str());
            push_str(&mut v, " via ");
            push_str(&mut v, self.protocol.as_str());
            push_str(&mut v, " (tls ");
            push_str(&mut v, if self.tls {
                "enabled"
            } else {
                "disabled"
            });
            push_str(&mut v, ")");
            assert(v@ =~= pretty_name_spec(self));
        }
        string_from_chars(&v)
    }
}

impl Default for Config {
    /// No credentials, a socket connection, and the MariaDB driver.
    fn default() -> (r: Config)
        ensures
            r.user@.len() == 0,
            r.password@.len() == 0,
            r.database@.len() == 0,
            r.protocol@ == "SOCKET"@,
            r.address@.len() == 0,
            !r.tls,
            r.driver@ == "mariadb"@,
    {
        Config {
            user: String::new(),
            password: String::new(),
            database: String::new(),
            protocol: "SOCKET".to_owned(),
            address: String::new(),
            tls: false,
            driver: "mariadb".to_owned(),
        }
    }
}

} // verus!
