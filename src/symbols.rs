use vstd::prelude::*;
use crate::address::Address;

verus! {

/// A ledger's local name for one of its symbols. `ledger.info` gives them as
/// a map from symbol to name, so a list of them is taken in that map's order
/// (ascending symbol) and names each symbol once (`symbols_unique`); two
/// symbols may share a name.
pub struct LocalName {
    pub symbol: Address,
    pub name: String,
}

/// A symbol given on the command line that is neither an address nor a local name.
#[derive(Debug)]
pub enum SymbolError {
    Unresolved(String),
}

impl SymbolError {
    pub open spec fn text(&self) -> Seq<char> {
        match self {
            SymbolError::Unresolved(s) => s@,
        }
    }
}

/// `i` is the first entry of `names` that carries the name `name`.
pub open spec fn is_first_named(names: Seq<LocalName>, name: Seq<char>, i: int) -> bool {
    &&& 0 <= i < names.len()
    &&& names[i].name@ == name
    &&& forall|j: int| 0 <= j < i ==> names[j].name@ != name
}

/// `i` is the last entry of `names` that carries the name `name`.
pub open spec fn is_last_named(names: Seq<LocalName>, name: Seq<char>, i: int) -> bool {
    &&& 0 <= i < names.len()
    &&& names[i].name@ == name
    &&& forall|j: int| i < j < names.len() ==> names[j].name@ != name
}

/// Each symbol has at most one local name, as in a map keyed by symbol.
pub open spec fn symbols_unique(names: Seq<LocalName>) -> bool {
    forall|i: int, j: int| 0 <= i < j < names.len() ==> names[i].symbol@ != names[j].symbol@
}

pub open spec fn has_name(names: Seq<LocalName>, name: Seq<char>) -> bool {
    exists|i: int| 0 <= i < names.len() && names[i].name@ == name
}

/// What a symbol text resolves to: the address it parses to, else the symbol
/// of the first local name equal to it.
pub open spec fn resolves_to(
    text: Seq<char>,
    parsed: Option<Address>,
    names: Seq<LocalName>,
    a: Seq<u8>,
) -> bool {
    match parsed {
        Some(p) => a == p@,
        None => exists|i: int| is_first_named(names, text, i) && names[i].symbol@ == a,
    }
}

/// What a symbol of a balance query resolves to: the address it parses to,
/// else the symbol of the last local name equal to it (a map from name to
/// symbol built in the list's order keeps the last).
pub open spec fn resolves_to_last(
    text: Seq<char>,
    parsed: Option<Address>,
    names: Seq<LocalName>,
    a: Seq<u8>,
) -> bool {
    match parsed {
        Some(p) => a == p@,
        None => exists|i: int| is_last_named(names, text, i) && names[i].symbol@ == a,
    }
}

pub open spec fn resolvable(text: Seq<char>, parsed: Option<Address>, names: Seq<LocalName>) -> bool {
    parsed is Some || has_name(names, text)
}

/// Finds the first local name equal to `name`.
pub fn find_local_name(names: &Vec<LocalName>, name: &String) -> (r: Option<usize>)
    ensures
        r is None <==> !has_name(names@, name@),
        r matches Some(i) ==> is_first_named(names@, name@, i as int),
{
    let mut i: usize = 0;
    while i < names.len()
        invariant
            i <= names.len(),
            forall|j: int| 0 <= j < i ==> names@[j].name@ != name@,
        decreases names.len() - i,
    {
        if names[i].name == *name {
            return Some(i);
        }
        i = i + 1;
    }
    None
}

/// Finds the last local name equal to `name`.
pub fn find_last_local_name(names: &Vec<LocalName>, name: &String) -> (r: Option<usize>)
    ensures
        r is None <==> !has_name(names@, name@),
        r matches Some(i) ==> is_last_named(names@, name@, i as int),
{
    let mut k: usize = names.len();
    while k > 0
        invariant
            k <= names.len(),
            forall|j: int| k <= j < names.len() ==> names@[j].name@ != name@,
        decreases k,
    {
        if names[k - 1].name == *name {
            return Some(k - 1);
        }
        k = k - 1;
    }
    None
}

/// Whether each symbol of `names` has one local name only.
pub fn symbols_are_unique(names: &Vec<LocalName>) -> (r: bool)
    ensures
        r == symbols_unique(names@),
{
    let mut i: usize = 0;
    while i < names.len()
        invariant
            i <= names.len(),
            forall|p: int, q: int| 0 <= p < q < names.len() && p < i ==> names@[p].symbol@ != names@[q].symbol@,
        decreases names.len() - i,
    {
        let mut j: usize = i + 1;
        while j < names.len()
            invariant
                i < names.len(),
                i + 1 <= j <= names.len(),
                forall|p: int, q: int| 0 <= p < q < names.len() && p < i ==> names@[p].symbol@ != names@[q].symbol@,
                forall|q: int| i < q < j ==> names@[i as int].symbol@ != names@[q].symbol@,
            decreases names.len() - j,
        {
            if names[i].symbol.same_as(&names[j].symbol) {
                return false;
            }
            j = j + 1;
        }
        i = i + 1;
    }
    true
}

/// Resolves a symbol text to the address of a symbol: the address that the
/// text parses to (`parsed`), else the symbol whose local name is the text.
pub fn resolve_symbol(
    text: &String,
    parsed: Option<Address>,
    local_names: &Vec<LocalName>,
) -> (r: Result<Address, SymbolError>)
    requires
        symbols_unique(local_names@),
    ensures
        r is Ok <==> resolvable(text@, parsed, local_names@),
        r matches Ok(a) ==> resolves_to(text@, parsed, local_names@, a@),
        r matches Err(e) ==> e.text() == text@,
{
    match parsed {
        Some(a) => Ok(a),
        None => match find_local_name(local_names, text) {
            Some(i) => Ok(local_names[i].symbol.duplicate()),
            None => Err(SymbolError::Unresolved(text.clone())),
        },
    }
}

/// Resolves the symbols that a balance query names. No symbol asks for all
/// of them (`None`); otherwise each text resolves, in order, to the address
/// it parses to, else to the last symbol with that local name, and the first
/// text that does not resolve gives the error.
pub fn resolve_symbols(
    texts: &Vec<String>,
    parsed: &Vec<Option<Address>>,
    local_names: &Vec<LocalName>,
) -> (r: Result<Option<Vec<Address>>, SymbolError>)
    requires
        texts.len() == parsed.len(),
        symbols_unique(local_names@),
    ensures
        r matches Ok(o) ==> (o is None <==> texts.len() == 0),
        r is Ok <==> forall|k: int|
            0 <= k < texts.len() ==> resolvable(texts@[k]@, parsed@[k], local_names@),
        r matches Ok(Some(v)) ==> (v.len() == texts.len() && forall|k: int|
            0 <= k < texts.len() ==> resolves_to_last(texts@[k]@, parsed@[k], local_names@, v@[k]@)),
        r matches Err(e) ==> exists|k: int|
            0 <= k < texts.len() && !resolvable(texts@[k]@, parsed@[k], local_names@) && e.text()
                == texts@[k]@ && forall|m: int|
                0 <= m < k ==> resolvable(texts@[m]@, parsed@[m], local_names@),
{
    if texts.len() == 0 {
        return Ok(None);
    }
    let mut out: Vec<Address> = Vec::new();
    let mut k: usize = 0;
    while k < texts.len()
        invariant
            texts.len() == parsed.len(),
            k <= texts.len(),
            out.len() == k,
            forall|m: int| 0 <= m < k ==> resolvable(texts@[m]@, parsed@[m], local_names@),
            forall|m: int|
                0 <= m < k ==> resolves_to_last(texts@[m]@, parsed@[m], local_names@, out@[m]@),
        decreases texts.len() - k,
    {
        match &parsed[k] {
            Some(a) => {
                out.push(a.duplicate());
            },
            None => match find_last_local_name(local_names, &texts[k]) {
                Some(i) => {
                    out.push(local_names[i].symbol.duplicate());
                },
                None => {
                    return Err(SymbolError::Unresolved(texts[k].clone()));
                },
            },
        }
        k = k + 1;
    }
    Ok(Some(out))
}

/// The local name of `symbol`, if the ledger gives it one.
pub fn symbol_label(local_names: &Vec<LocalName>, symbol: &Address) -> (r: Option<String>)
    requires
        symbols_unique(local_names@),
    ensures
        r is None <==> forall|i: int| 0 <= i < local_names.len() ==> local_names@[i].symbol@ != symbol@,
        r matches Some(n) ==> exists|i: int|
            0 <= i < local_names.len() && local_names@[i].symbol@ == symbol@ && local_names@[i].name@ == n@,
{
    let mut i: usize = 0;
    while i < local_names.len()
        invariant
            i <= local_names.len(),
            forall|j: int| 0 <= j < i ==> local_names@[j].symbol@ != symbol@,
        decreases local_names.len() - i,
    {
        if local_names[i].symbol.same_as(symbol) {
            return Some(local_names[i].name.clone());
        }
        i = i + 1;
    }
    None
}

} // verus!
