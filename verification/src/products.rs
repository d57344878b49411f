//! Products of the catalogue service and how requests change them.
use vstd::prelude::*;

verus! {

/// A product as stored and returned.
#[derive(Debug, Clone)]
pub struct Product {
    pub id: i64,
    pub name: String,
    pub description: String,
    pub icon: Option<String>,
}

/// A request to create a product.
#[derive(Debug, Clone)]
pub struct CreateProductRequest {
    pub name: String,
    pub description: String,
}

/// A request to change some fields of a product.
#[derive(Debug, Clone)]
pub struct UpdateProductRequest {
    pub name: Option<String>,
    pub description: Option<String>,
}

/// The icon path as plain text, if any.
pub open spec fn icon_view(icon: Option<String>) -> Option<Seq<char>> {
    match icon {
        Some(i) => Some(i@),
        None => None,
    }
}

/// The product created with identifier `id`: the requested fields and no
/// icon.
pub fn created_product(id: i64, request: CreateProductRequest) -> (res: Product)
    ensures
        res.id == id,
        res.name@ == request.name@,
        res.description@ == request.description@,
        res.icon is None,
{
    Product { id, name: request.name, description: request.description, icon: None }
}

/// The product after an update: each field the request gives replaces the
/// current one; the icon is kept.
pub fn updated_product(id: i64, current: Product, payload: UpdateProductRequest) -> (res: Product)
    ensures
        res.id == id,
        res.name@ == match payload.name {
            Some(n) => n@,
            None => current.name@,
        },
        res.description@ == match payload.description {
            Some(d) => d@,
            None => current.description@,
        },
        icon_view(res.icon) == icon_view(current.icon),
{
    let name = match payload.name {
        Some(n) => n,
        None => current.name,
    };
    let description = match payload.description {
        Some(d) => d,
        None => current.description,
    };
    Product { id, name, description, icon: current.icon }
}

} // verus!
