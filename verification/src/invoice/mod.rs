//! Invoice data. Amounts and quantities are held as the decimal text they are
//! shown and stored with (the fiscal API's numbers in their shortest
//! round-trip form, the invoice total with two decimals).
pub mod mapper;
pub mod parser;

use vstd::prelude::*;

verus! {

/// One line-item returned by the Serbian fiscal API.
#[derive(Debug)]
pub struct InvoiceItem {
    pub name: String,
    pub quantity: String,
    pub unit_price: String,
    pub total: String,
    pub gtin: String,
    pub label: String,
    pub label_rate: String,
    pub tax_base_amount: String,
    pub vat_amount: String,
}

/// A fully-parsed invoice fetched from the Serbian fiscal authority website.
#[derive(Debug)]
pub struct Invoice {
    pub invoice_number: String,
    pub retailer: String,
    /// ISO 8601 datetime, e.g. `2024-03-15T14:30:00`
    pub date: String,
    /// The invoice total with two decimals, e.g. `1234.56`.
    pub total_price: String,
    pub currency: String,
    pub country: String,
    pub url: String,
    pub raw_bill_text: String,
    pub items: Vec<InvoiceItem>,
}

/// The data persisted as YAML front-matter for a single purchased item.
#[derive(Debug)]
pub struct Transaction {
    pub date: String,
    pub retailer: String,
    pub name: String,
    pub quantity: String,
    pub unit_price: String,
    pub price_total: String,
    pub currency: String,
    pub country: String,
    pub link: Option<String>,
    pub tags: Vec<String>,
    pub notes: Option<String>,
}

} // verus!
