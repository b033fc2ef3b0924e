use vstd::prelude::*;
use crate::address::{Address, anonymous_bytes};
use crate::amount::Amount;
use crate::symbols::{LocalName, SymbolError, resolvable, resolves_to, resolve_symbol, symbols_unique};

verus! {

/// The arguments of a `ledger.send` call.
pub struct SendArgs {
    pub from: Address,
    pub to: Address,
    pub symbol: Address,
    pub amount: Amount,
}

/// Why a transfer was not sent.
#[derive(Debug)]
pub enum SendError {
    /// The symbol is neither an address nor a local name of the ledger.
    Symbol(SymbolError),
    /// The sending account is the anonymous address.
    InvalidIdentity,
}

/// Builds the arguments of a transfer: the symbol text is resolved first
/// (`parsed` is what it parses to as an address), then an anonymous sender
/// is refused.
pub fn prepare_send(
    from: Address,
    to: Address,
    amount: Amount,
    symbol: &String,
    parsed: Option<Address>,
    local_names: &Vec<LocalName>,
) -> (r: Result<SendArgs, SendError>)
    requires
        symbols_unique(local_names@),
    ensures
        !resolvable(symbol@, parsed, local_names@) ==> (r matches Err(SendError::Symbol(e))
            && e.text() == symbol@),
        resolvable(symbol@, parsed, local_names@) && from@ == anonymous_bytes() ==> r matches Err(
            SendError::InvalidIdentity,
        ),
        r is Ok <==> resolvable(symbol@, parsed, local_names@) && from@ != anonymous_bytes(),
        r matches Ok(args) ==> {
            &&& args.from@ == from@
            &&& args.to@ == to@
            &&& args.amount.digits@ == amount.digits@
            &&& resolves_to(symbol@, parsed, local_names@, args.symbol@)
        },
{
    let symbol = match resolve_symbol(symbol, parsed, local_names) {
        Ok(s) => s,
        Err(e) => {
            return Err(SendError::Symbol(e));
        },
    };
    if from.is_anonymous() {
        Err(SendError::InvalidIdentity)
    } else {
        Ok(SendArgs { from, to, symbol, amount })
    }
}

} // verus!
