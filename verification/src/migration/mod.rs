pub mod given_roles;
