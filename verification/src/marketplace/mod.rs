pub mod entitlement_ledger;
