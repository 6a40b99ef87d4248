use vstd::prelude::*;

verus! {

/// Message that instantiates the contract; it carries no settings.
#[derive(Clone, Debug, PartialEq)]
pub struct InstantiateMsg {}

/// Messages that execute a state change.
#[derive(Clone, Debug, PartialEq)]
pub enum ExecuteMsg {
    Foo {},
}

/// Queries that the contract answers from the price oracle.
#[derive(Clone, Debug, PartialEq)]
pub enum QueryMsg {
    GetPrice { base: String, quote: String },
    GetPrices { pair_ids: Vec<String> },
    GetAllCurrencyPairs {},
}

} // verus!
