use living_edit::ast::{
    Aggregate, Attribute, BoundedContext, BoundedContextRelation, ContextMap, DomainEvent, Entity,
    Field, Property,
};
use living_edit::edge::Edge;
use living_edit::node::Node;
use living_edit::subgraph::{starts_with, Subgraph};

#[test]
fn cluster_gets_its_prefix_once() {
    assert_eq!(Subgraph::new("orders", "Orders").render(), "subgraph cluster_orders {label=\"Orders\";}");
    assert_eq!(
        Subgraph::new("cluster_orders", "Orders").render(),
        "subgraph cluster_orders {label=\"Orders\";}"
    );
    assert_eq!(Subgraph::new("", "").render(), "subgraph cluster_ {label=\"\";}");
    assert_eq!(Subgraph::new("cluster", "c").render(), "subgraph cluster_cluster {label=\"c\";}");
    assert_eq!(Subgraph::new("Cluster_a", "c").render(), "subgraph cluster_Cluster_a {label=\"c\";}");
}

#[test]
fn prefix_test() {
    assert!(starts_with("cluster_a", "cluster_"));
    assert!(starts_with("cluster_", "cluster_"));
    assert!(starts_with("anything", ""));
    assert!(!starts_with("cluster", "cluster_"));
    assert!(!starts_with("", "c"));
    assert!(!starts_with("clüster_a", "cluster_"));
    assert!(starts_with("übung", "üb"));
}

#[test]
fn cluster_renders_nodes_edges_and_inner_clusters_in_order() {
    let mut outer = Subgraph::new("shop", "Shop");
    outer.add_node(Node::new("cart"));
    outer.add_node(Node::with_label("pay", "Payment"));
    outer.add_edge(Edge::new("cart", "pay"));
    let mut inner = Subgraph::new("stock", "Stock");
    inner.add_node(Node::new("item"));
    let innermost = Subgraph::new("cluster_bin", "Bin");
    inner.add_subgraph(innermost);
    outer.add_subgraph(inner);
    outer.add_subgraph(Subgraph::new("mail", "Mail"));
    assert_eq!(
        outer.render(),
        "subgraph cluster_shop {label=\"Shop\";cart [label=\"cart\"];pay [label=\"Payment\"];\
cart -> pay;\
subgraph cluster_stock {label=\"Stock\";item [label=\"item\"];\
subgraph cluster_bin {label=\"Bin\";}}\
subgraph cluster_mail {label=\"Mail\";}}"
    );
}

#[test]
fn one_cluster_inside_another() {
    let mut a = Subgraph::new("a", "A");
    a.add_subgraph(Subgraph::new("b", "B"));
    assert_eq!(a.render(), "subgraph cluster_a {label=\"A\";subgraph cluster_b {label=\"B\";}}");
    assert_eq!(Subgraph::new("b", "B").render(), "subgraph cluster_b {label=\"B\";}");
}

#[test]
fn node_and_edge_statements() {
    assert_eq!(Node::new("a").render(), "a [label=\"a\"];");
    assert_eq!(Node::with_label("a", "The A").render(), "a [label=\"The A\"];");
    assert_eq!(Edge::new("a", "b").render(), "a -> b;");
}

#[test]
fn domain_model_values_compare_by_content() {
    let map = ContextMap {
        name: "shop".to_string(),
        contexts: BoundedContext { name: "orders".to_string() },
        relations: vec![BoundedContextRelation::SharedKernel, BoundedContextRelation::Conformist],
    };
    let same = ContextMap {
        name: "shop".to_string(),
        contexts: BoundedContext { name: "orders".to_string() },
        relations: vec![BoundedContextRelation::SharedKernel, BoundedContextRelation::Conformist],
    };
    assert_eq!(map, same);
    assert_eq!(map.clone(), map);
    assert_eq!(map.contexts.clone(), BoundedContext { name: "orders".to_string() });
    assert_ne!(BoundedContextRelation::Partnership, BoundedContextRelation::CustomerSupplier);
    assert_ne!(
        BoundedContextRelation::GenericUpstreamDownstream,
        BoundedContextRelation::AntiCorruptionLayer
    );
    assert_ne!(BoundedContextRelation::OpenHostService, BoundedContextRelation::PublishedLanguage);

    let aggregate = Aggregate {
        name: "order".to_string(),
        description: "an order".to_string(),
        is_root: true,
        context: "orders".to_string(),
        entities: vec![Entity {
            name: "line".to_string(),
            fields: vec![Field { name: "count".to_string(), type_: "int".to_string() }],
        }],
    };
    assert_eq!(aggregate.entities[0].fields[0].type_, "int");
    assert_eq!(aggregate.clone(), aggregate);
    assert_eq!(aggregate.entities[0].clone(), aggregate.entities[0]);
    assert_eq!(aggregate.entities[0].fields[0].clone(), aggregate.entities[0].fields[0]);
    assert!(aggregate.is_root);
    assert_eq!(DomainEvent { name: "paid".to_string() }, DomainEvent { name: "paid".to_string() });
    assert_eq!(DomainEvent { name: "paid".to_string() }.clone().name, "paid");
    assert_eq!(Attribute { key: "k".to_string(), value: "v".to_string() }.clone().value, "v");
    assert_ne!(
        Attribute { key: "k".to_string(), value: "v".to_string() },
        Attribute { key: "k".to_string(), value: "w".to_string() }
    );
    let property = Property { required: true, nullable: false, unique: true };
    let copy = property;
    assert_eq!(property, copy);
}
