//! Tests of the schema component.

use index_scheduler::schema::{
    indexed_props, ranked_props, stored_props, Schema, SchemaAttr, SchemaBuilder,
};

#[test]
fn builder_assigns_dense_attribute_numbers() {
    let mut builder = SchemaBuilder::with_identifier("id".to_string());
    let alpha = builder.new_attribute("alpha".to_string(), stored_props());
    let beta = builder.new_attribute("beta".to_string(), stored_props().merge(indexed_props()));
    let gamma = builder.new_attribute("gamma".to_string(), indexed_props());
    assert_eq!(alpha, SchemaAttr::new(0));
    assert_eq!(beta, SchemaAttr::new(1));
    assert_eq!(gamma, SchemaAttr::new(2));

    let schema: Schema = builder.build();
    assert_eq!(schema.identifier_name(), "id".to_string());
    assert_eq!(schema.attribute(&"beta".to_string()), Some(SchemaAttr::new(1)));
    assert_eq!(schema.attribute(&"delta".to_string()), None);
    assert_eq!(schema.attribute_name(SchemaAttr::new(2)), "gamma".to_string());
    assert!(schema.props(SchemaAttr::new(1)).is_stored());
    assert!(schema.props(SchemaAttr::new(1)).is_indexed());
    assert!(!schema.props(SchemaAttr::new(0)).is_indexed());
    assert!(ranked_props().is_ranked());

    let ordered = schema.attributes_ordered();
    assert_eq!(ordered.len(), 3);
    assert_eq!(ordered[0].0, "alpha".to_string());
    assert_eq!(ordered[2].0, "gamma".to_string());
}

#[test]
fn attribute_numbers_step() {
    assert_eq!(SchemaAttr::min().next(), Some(SchemaAttr::new(1)));
    assert_eq!(SchemaAttr::max().next(), None);
    assert_eq!(SchemaAttr::min().prev(), None);
    assert_eq!(SchemaAttr::new(5).prev(), Some(SchemaAttr::new(4)));
}
