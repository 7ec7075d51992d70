//! What to do on launch: which DBC and rules to load, and which interface to
//! open, from the arguments and the remembered session.

use vstd::prelude::*;

use crate::cli::Cli;
use crate::config::Config;
use crate::paths::is_file;
use crate::rules::load::{discover, spec_candidates};
use crate::text::str_eq;
use crate::transport::discover::{row, rows, usb_candidates, usb_rows, UsbDevice};
use crate::transport::spec::TransportSpec;

verus! {

/// What the user still has to choose on launch. Each is independent, so
/// `--dbc` alone skips only the DBC picker.
#[derive(Clone, Copy, Debug, PartialEq, Eq, Structural)]
pub struct Startup {
    pub need_dbc: bool,
    pub need_interface: bool,
}

/// The DBC to load on launch: the one named, or with `--last` the one
/// remembered.
pub open spec fn spec_startup_dbc(args: Cli, config: Config) -> Option<String> {
    match args.dbc {
        Some(p) => Some(p),
        None => if args.last {
            config.dbc
        } else {
            None
        },
    }
}

fn copy_path(p: &Option<String>) -> (r: Option<String>)
    ensures
        r == *p,
{
    match p {
        Some(s) => Some(s.clone()),
        None => None,
    }
}

/// The DBC to load on launch (see [`spec_startup_dbc`]).
pub fn startup_dbc(args: &Cli, config: &Config) -> (r: Option<String>)
    ensures
        r == spec_startup_dbc(*args, *config),
{
    match &args.dbc {
        Some(p) => Some(p.clone()),
        None => if args.last {
            copy_path(&config.dbc)
        } else {
            None
        },
    }
}

/// The rules file asked for: the one named, or with `--last` the one
/// remembered.
pub open spec fn wanted_rules(args: Cli, config: Config) -> Option<String> {
    match args.rules {
        Some(p) => Some(p),
        None => if args.last {
            config.rules
        } else {
            None
        },
    }
}

/// The rules file to load on launch, given what the disk says: the one asked
/// for when it is a file, else the one found beside the DBC or in the working
/// directory, if any.
pub fn chosen_rules(wanted: Option<String>, wanted_is_file: bool, discovered: Option<String>) -> (r: Option<String>)
    ensures
        r == (if wanted is Some && wanted_is_file {
            wanted
        } else {
            discovered
        }),
{
    match wanted {
        Some(p) => if wanted_is_file {
            Some(p)
        } else {
            discovered
        },
        None => discovered,
    }
}

/// The rules file to load on launch: the one asked for when it is a file, or
/// else one found beside the remembered DBC or in the working directory (see
/// [`chosen_rules`]). Which paths are files is up to the disk; whatever it
/// says, the file chosen is the one asked for or one of the places looked in.
pub fn startup_rules(args: &Cli, config: &Config) -> (r: Option<String>)
    ensures
        r matches Some(f) ==> wanted_rules(*args, *config) == Some(f) || spec_candidates(
            match config.dbc {
                Some(d) => Some(d@),
                None => None,
            },
        ).contains(f@),
{
    let wanted = match &args.rules {
        Some(p) => Some(p.clone()),
        None => if args.last {
            copy_path(&config.rules)
        } else {
            None
        },
    };
    let wanted_is_file = match &wanted {
        Some(p) => is_file(p.as_str()),
        None => false,
    };
    let discovered = match &config.dbc {
        Some(d) => discover(Some(d.as_str())),
        None => discover(None),
    };
    chosen_rules(wanted, wanted_is_file, discovered)
}

/// The bitrate the arguments ask for, 500 kbit/s when they name none.
pub open spec fn args_bitrate(args: Cli) -> u32 {
    match args.bitrate {
        Some(b) => b,
        None => 500_000,
    }
}

/// Whether the arguments ask for a gs_usb adapter, which has no stable
/// channel name and so is looked for among those plugged in.
pub open spec fn asks_for_gs_usb(args: Cli) -> bool {
    args.interface matches Some(k) && (k@ == "gs_usb"@ || k@ == "candlelight"@)
}

/// The interface the arguments describe, for every kind but gs_usb: `virtual`
/// (or `vcan`) needs nothing more; `slcan` and `socketcan` need a channel.
pub open spec fn named_interface(args: Cli) -> Option<TransportSpec> {
    match args.interface {
        None => None,
        Some(k) => if k@ == "virtual"@ || k@ == "vcan"@ {
            Some(TransportSpec::Virtual)
        } else if k@ == "slcan"@ {
            match args.channel {
                Some(port) => Some(TransportSpec::Slcan { port, bitrate: args_bitrate(args) }),
                None => None,
            }
        } else if k@ == "socketcan"@ {
            match args.channel {
                Some(iface) => Some(TransportSpec::SocketCan { iface }),
                None => None,
            }
        } else {
            None
        },
    }
}

/// The first adapter we drive among the USB devices listed, at `bitrate`
/// (see [`usb_rows`]).
pub open spec fn plugged_adapter(devs: Seq<UsbDevice>, bitrate: u32) -> Option<TransportSpec> {
    let rs = usb_rows(devs, bitrate, devs.len() as int);
    if rs.len() > 0 {
        Some(rs[0].0)
    } else {
        None
    }
}

/// The interface the arguments describe, given the USB devices listed: for
/// `gs_usb` (or `candlelight`) the first adapter we drive among them, at the
/// bitrate asked for; for every other kind, [`named_interface`].
pub open spec fn args_interface(args: Cli, devs: Seq<UsbDevice>) -> Option<TransportSpec> {
    if asks_for_gs_usb(args) {
        plugged_adapter(devs, args_bitrate(args))
    } else {
        named_interface(args)
    }
}

/// The interface the arguments name, when they describe one fully (see
/// [`args_interface`]); `devs` are the USB devices plugged in.
pub fn spec_from_args(args: &Cli, devs: &Vec<UsbDevice>) -> (r: Option<TransportSpec>)
    ensures
        r == args_interface(*args, devs@),
{
    proof {
        reveal_strlit("virtual");
        reveal_strlit("vcan");
        reveal_strlit("slcan");
        reveal_strlit("socketcan");
        reveal_strlit("gs_usb");
        reveal_strlit("candlelight");
        assert("virtual"@.len() == 7 && "vcan"@.len() == 4 && "slcan"@.len() == 5 && "socketcan"@.len() == 9);
        assert("gs_usb"@.len() == 6 && "candlelight"@.len() == 11);
    }
    let bitrate: u32 = match args.bitrate {
        Some(b) => b,
        None => 500_000,
    };
    let kind = match &args.interface {
        Some(k) => k.as_str(),
        None => {
            return None;
        },
    };
    if str_eq(kind, "virtual") || str_eq(kind, "vcan") {
        Some(TransportSpec::Virtual)
    } else if str_eq(kind, "slcan") {
        match &args.channel {
            Some(port) => Some(TransportSpec::Slcan { port: port.clone(), bitrate }),
            None => None,
        }
    } else if str_eq(kind, "socketcan") {
        match &args.channel {
            Some(iface) => Some(TransportSpec::SocketCan { iface: iface.clone() }),
            None => None,
        }
    } else if str_eq(kind, "gs_usb") || str_eq(kind, "candlelight") {
        let found = usb_candidates(devs, bitrate);
        if found.len() > 0 {
            proof {
                assert(rows(found@)[0] == row(found@[0]));
            }
            Some(found[0].spec.duplicate())
        } else {
            None
        }
    } else {
        None
    }
}

/// The interface remembered from the last session, at the remembered
/// bitrate, when `--last` asks for it.
pub open spec fn remembered_interface(args: Cli, config: Config) -> Option<TransportSpec> {
    if args.last {
        match config.interface {
            Some(s) => Some(s.spec_with_bitrate(config.bitrate)),
            None => None,
        }
    } else {
        None
    }
}

/// The interface to open on launch: the one the arguments describe, or else
/// the one remembered (see [`remembered_interface`]).
pub fn startup_interface(args: &Cli, config: &Config, devs: &Vec<UsbDevice>) -> (r: Option<TransportSpec>)
    ensures
        r == match args_interface(*args, devs@) {
            Some(s) => Some(s),
            None => remembered_interface(*args, *config),
        },
{
    match spec_from_args(args, devs) {
        Some(s) => Some(s),
        None => if args.last {
            match &config.interface {
                Some(s) => Some(s.duplicate().with_bitrate(config.bitrate)),
                None => None,
            }
        } else {
            None
        },
    }
}

} // verus!
