//! The exchange of an install nonce for credentials: what is to be done with
//! the values that the install script hands over, and what is said when a
//! step fails.

use vstd::prelude::*;
use vstd::string::*;

verus! {

/// What to do with the values that the install script handed over.
#[derive(Debug, PartialEq, Eq)]
pub enum ExchangePlan {
    /// There is no nonce: nothing is done and nothing is said.
    Skip,
    /// There is a nonce and no service to take it to: a warning is due.
    MissingApiBase,
    /// The nonce is to be exchanged at the service.
    Exchange { nonce: String, api_base: String, install_page_url: Option<String> },
}

/// The plan as a value.
pub enum ExchangePlanView {
    Skip,
    MissingApiBase,
    Exchange { nonce: Seq<char>, api_base: Seq<char>, install_page_url: Option<Seq<char>> },
}

impl View for ExchangePlan {
    type V = ExchangePlanView;

    open spec fn view(&self) -> ExchangePlanView {
        match *self {
            ExchangePlan::Skip => ExchangePlanView::Skip,
            ExchangePlan::MissingApiBase => ExchangePlanView::MissingApiBase,
            ExchangePlan::Exchange { nonce, api_base, install_page_url } => ExchangePlanView::Exchange {
                nonce: nonce@,
                api_base: api_base@,
                install_page_url: text_view(install_page_url),
            },
        }
    }
}

/// The steps of the exchange, in their order.
#[derive(Clone, Copy, Debug, PartialEq, Eq, Structural)]
pub enum ExchangeStep {
    /// Reaching the service.
    Connect,
    /// Handing the nonce over and getting credentials back.
    Exchange,
    /// Putting the credentials away.
    Store,
}

/// A value that may be missing, as a value.
pub open spec fn text_view(v: Option<String>) -> Option<Seq<char>> {
    match v {
        Some(s) => Some(s@),
        None => None,
    }
}

/// A value counts only where it is there and not empty.
pub open spec fn present(v: Option<Seq<char>>) -> Option<Seq<char>> {
    match v {
        Some(s) => if s.len() == 0 {
            None
        } else {
            Some(s)
        },
        None => None,
    }
}

/// What the plan is, for the three values.
pub open spec fn planned(
    nonce: Option<Seq<char>>,
    api_base: Option<Seq<char>>,
    install_page_url: Option<Seq<char>>,
) -> ExchangePlanView {
    match present(nonce) {
        None => ExchangePlanView::Skip,
        Some(n) => match present(api_base) {
            None => ExchangePlanView::MissingApiBase,
            Some(b) => ExchangePlanView::Exchange {
                nonce: n,
                api_base: b,
                install_page_url: present(install_page_url),
            },
        },
    }
}

/// What is said when the automatic login has run out.
pub open spec fn expired_text(install_page_url: Option<Seq<char>>) -> Seq<char> {
    match install_page_url {
        Some(url) =>
            "\x1b[33mAutomatic login expired. Visit the link below to get a fresh install command:\n  "@
                + url + "\x1b[0m"@,
        None =>
            "\x1b[33mAutomatic login expired. Visit your organization's install page for a fresh install command.\x1b[0m"@,
    }
}

/// What is said when the credentials could not be put away.
pub open spec fn store_failure_text(detail: Seq<char>) -> Seq<char> {
    "\x1b[33mWarning: Failed to store credentials: "@ + detail + "\x1b[0m"@
}

/// What is said when a step of the exchange fails.
pub open spec fn failure_text(
    step: ExchangeStep,
    detail: Seq<char>,
    install_page_url: Option<Seq<char>>,
) -> Seq<char> {
    match step {
        ExchangeStep::Connect => expired_text(install_page_url),
        ExchangeStep::Exchange => expired_text(install_page_url),
        ExchangeStep::Store => store_failure_text(detail),
    }
}

/// A value that is there and not empty, or nothing.
pub fn non_empty(v: Option<String>) -> (r: Option<String>)
    ensures
        text_view(r) == present(text_view(v)),
{
    match v {
        Some(s) => {
            if s.as_str().unicode_len() == 0 {
                None
            } else {
                Some(s)
            }
        },
        None => None,
    }
}

/// Decides what to do with the nonce, the address of the service and the
/// address of the install page, each of which may be missing or empty.
pub fn plan_exchange(
    nonce: Option<String>,
    api_base: Option<String>,
    install_page_url: Option<String>,
) -> (plan: ExchangePlan)
    ensures
        plan@ == planned(text_view(nonce), text_view(api_base), text_view(install_page_url)),
{
    match non_empty(nonce) {
        None => ExchangePlan::Skip,
        Some(n) => match non_empty(api_base) {
            None => ExchangePlan::MissingApiBase,
            Some(b) => ExchangePlan::Exchange {
                nonce: n,
                api_base: b,
                install_page_url: non_empty(install_page_url),
            },
        },
    }
}

/// The warning for a nonce without a service to take it to.
pub fn missing_api_base_warning() -> (r: String)
    ensures
        r@ == "\x1b[33mWarning: INSTALL_NONCE set but API_BASE missing\x1b[0m"@,
{
    String::from_str("\x1b[33mWarning: INSTALL_NONCE set but API_BASE missing\x1b[0m")
}

/// What is said when the login has run out: where to get a fresh install
/// command, with the address of the install page where it is known. The
/// detail of the failure is not shown.
pub fn format_error(_detail: &str, install_page_url: Option<&str>) -> (r: String)
    ensures
        r@ == expired_text(
            match install_page_url {
                Some(u) => Some(u@),
                None => None,
            },
        ),
{
    match install_page_url {
        Some(url) => {
            let mut r = String::from_str(
                "\x1b[33mAutomatic login expired. Visit the link below to get a fresh install command:\n  ",
            );
            r.append(url);
            r.append("\x1b[0m");
            r
        },
        None => String::from_str(
            "\x1b[33mAutomatic login expired. Visit your organization's install page for a fresh install command.\x1b[0m",
        ),
    }
}

/// What is said when the credentials could not be put away.
pub fn store_failure_warning(detail: &str) -> (r: String)
    ensures
        r@ == store_failure_text(detail@),
{
    let mut r = String::from_str("\x1b[33mWarning: Failed to store credentials: ");
    r.append(detail);
    r.append("\x1b[0m");
    r
}

/// What is said when a step of the exchange fails. The install goes on in
/// either case.
pub fn failure_message(step: ExchangeStep, detail: &str, install_page_url: Option<&str>) -> (r:
    String)
    ensures
        r@ == failure_text(
            step,
            detail@,
            match install_page_url {
                Some(u) => Some(u@),
                None => None,
            },
        ),
{
    match step {
        ExchangeStep::Connect => format_error(detail, install_page_url),
        ExchangeStep::Exchange => format_error(detail, install_page_url),
        ExchangeStep::Store => store_failure_warning(detail),
    }
}

} // verus!
